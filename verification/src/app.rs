//! A player's side of the game: what keys, the mouse and the host do to it.

use crate::area::Rect;
use crate::game::{
    letters_out, Cmd, CmdView, Player, PlayerView, State, StateView, Update, UpdateView,
};
use crate::input::{KeyCode, KeyEvent, MouseEventKind};
use crate::notes::{least, Notes, NotesView};
use crate::text::{begins, plus, same, starts_with, trim, trimmed, views, width};
use vstd::prelude::*;

verus! {

/// How many lines one notch of the wheel scrolls.
pub const WHEEL: usize = 3;

/// A player's side of the game: the game as the host told it last, what the player is typing, and
/// what was drawn where.
pub struct App {
    pub addr: Option<String>,
    pub port: String,
    pub state: State,
    pub you: usize,
    pub joined: bool,
    pub err: String,
    pub flash: String,
    pub share: Vec<(u16, String)>,
    pub hover: Option<u16>,
    pub pub_ip: String,
    pub entry: Notes,
    pub notes: Notes,
    pub on_notes: bool,
    pub notes_inner: Rect,
    pub entry_rect: Rect,
    pub log_rect: Rect,
    pub log_scroll: usize,
    pub notes_hidden: bool,
    pub mine_only: bool,
    pub quit: bool,
}

/// What an `App` holds.
#[verifier::ext_equal]
pub struct AppView {
    pub addr: Option<Seq<char>>,
    pub port: Seq<char>,
    pub state: StateView,
    pub you: int,
    pub joined: bool,
    pub err: Seq<char>,
    pub flash: Seq<char>,
    pub share: Seq<(u16, Seq<char>)>,
    pub hover: Option<u16>,
    pub pub_ip: Seq<char>,
    pub entry: NotesView,
    pub notes: NotesView,
    pub on_notes: bool,
    pub notes_inner: Rect,
    pub entry_rect: Rect,
    pub log_rect: Rect,
    pub log_scroll: int,
    pub notes_hidden: bool,
    pub mine_only: bool,
    pub quit: bool,
}

/// What the program has to do for the player.
pub enum Action {
    Nothing,
    /// Send this to the host.
    Send(Cmd),
    /// Join a game under this name.
    Connect(String),
    /// Copy this to the clipboard.
    Copy(String),
}

/// What an `Action` holds.
#[verifier::ext_equal]
pub enum ActionView {
    Nothing,
    Send(CmdView),
    Connect(Seq<char>),
    Copy(Seq<char>),
}

impl View for Action {
    type V = ActionView;

    open spec fn view(&self) -> ActionView {
        match self {
            Action::Nothing => ActionView::Nothing,
            Action::Send(c) => ActionView::Send(c@),
            Action::Connect(name) => ActionView::Connect(name@),
            Action::Copy(text) => ActionView::Copy(text@),
        }
    }
}

/// The views of the rows that copy something when clicked.
pub open spec fn rows_of(v: Seq<(u16, String)>) -> Seq<(u16, Seq<char>)> {
    Seq::new(v.len(), |i: int| (v[i].0, v[i].1@))
}

/// The view of a text that may be missing.
pub open spec fn maybe(s: Option<String>) -> Option<Seq<char>> {
    match s {
        Some(s) => Some(s@),
        None => None,
    }
}

impl View for App {
    type V = AppView;

    open spec fn view(&self) -> AppView {
        AppView {
            addr: maybe(self.addr),
            port: self.port@,
            state: self.state@,
            you: self.you as int,
            joined: self.joined,
            err: self.err@,
            flash: self.flash@,
            share: rows_of(self.share@),
            hover: self.hover,
            pub_ip: self.pub_ip@,
            entry: self.entry@,
            notes: self.notes@,
            on_notes: self.on_notes,
            notes_inner: self.notes_inner,
            entry_rect: self.entry_rect,
            log_rect: self.log_rect,
            log_scroll: self.log_scroll as int,
            notes_hidden: self.notes_hidden,
            mine_only: self.mine_only,
            quit: self.quit,
        }
    }
}

/// The command `cmd` with a text.
pub open spec fn command(cmd: Seq<char>, text: Seq<char>) -> CmdView {
    CmdView { cmd, name: Seq::empty(), text }
}

/// The first player whose name `line` begins with.
pub open spec fn speaker_of(players: Seq<PlayerView>, line: Seq<char>) -> Option<int>
    decreases players.len(),
{
    if players.len() == 0 {
        None
    } else {
        match speaker_of(players.drop_last(), line) {
            Some(i) => Some(i),
            None => if begins(line, players.last().name) {
                Some(players.len() - 1)
            } else {
                None
            },
        }
    }
}

/// The key moves the cursor.
pub open spec fn moves(code: KeyCode) -> bool {
    code is Left || code is Right || code is Up || code is Down || code is Home || code is End
}

/// The text after a key: a key that moves the cursor drops the selection first.
pub open spec fn edited(n: NotesView, code: KeyCode) -> NotesView {
    let m = if moves(code) {
        NotesView { anchor: None, ..n }
    } else {
        n
    };
    match code {
        KeyCode::Char(c) => m.inserted(c),
        KeyCode::Enter => m.broken(),
        KeyCode::Backspace => m.backspaced(),
        KeyCode::Delete => m.deleted(),
        KeyCode::Left => m.to_left(),
        KeyCode::Right => m.to_right(),
        KeyCode::Up => m.to_up(),
        KeyCode::Down => m.to_down(),
        KeyCode::Home => NotesView { col: 0, ..m },
        KeyCode::End => NotesView { col: m.line().len() as int, ..m },
        KeyCode::Tab => m,
        KeyCode::Other => m,
    }
}

/// The key can edit the text: what it moves to or takes out is there.
pub open spec fn editable(n: NotesView, code: KeyCode) -> bool {
    match code {
        KeyCode::Char(_) => n.can_insert(),
        KeyCode::Enter => n.can_cut(),
        KeyCode::Backspace => n.can_backspace(),
        KeyCode::Delete => n.can_cut(),
        KeyCode::Left => n.col == 0 ==> n.can_go_up(),
        KeyCode::Right => n.row < n.lines.len(),
        KeyCode::Up => n.can_go_up(),
        KeyCode::Down => n.can_go_down(),
        KeyCode::Home => true,
        KeyCode::End => n.row < n.lines.len(),
        KeyCode::Tab => true,
        KeyCode::Other => true,
    }
}

impl AppView {
    /// A player that has not joined, bound for the game at `addr` or, without one, to host at
    /// `port`.
    pub open spec fn fresh(addr: Option<Seq<char>>, port: Seq<char>) -> AppView {
        let nowhere = Rect { x: 0, y: 0, width: 0, height: 0 };
        AppView {
            addr,
            port,
            state: StateView {
                phase: Seq::empty(),
                turn: 0,
                players: Seq::empty(),
                assigns: Seq::empty(),
                log: Seq::empty(),
                deadline: 0,
            },
            you: 0,
            joined: false,
            err: Seq::empty(),
            flash: Seq::empty(),
            share: Seq::empty(),
            hover: None,
            pub_ip: Seq::empty(),
            entry: NotesView::blank(),
            notes: NotesView::blank(),
            on_notes: false,
            notes_inner: nowhere,
            entry_rect: nowhere,
            log_rect: nowhere,
            log_scroll: 0,
            notes_hidden: false,
            mine_only: false,
            quit: false,
        }
    }

    /// Told whether `addr` came to the clipboard, or why not.
    pub open spec fn told_copied(self, addr: Seq<char>, done: Result<(), Seq<char>>) -> AppView {
        AppView {
            flash: match done {
                Ok(_) => "copied "@ + addr,
                Err(e) => "could not copy: "@ + e,
            },
            ..self
        }
    }

    /// Told that the host can no longer be reached.
    pub open spec fn told_lost(self) -> AppView {
        AppView { err: "connection lost"@, ..self }
    }

    /// Told why the host could not be reached.
    pub open spec fn told_refused(self, why: Seq<char>) -> AppView {
        AppView { err: "could not connect: "@ + why, ..self }
    }

    /// The player whom this one names a thing for.
    pub open spec fn target(self) -> Option<PlayerView> {
        if self.you < self.state.assigns.len() && 0 <= self.state.assigns[self.you]
            < self.state.players.len() {
            Some(self.state.players[self.state.assigns[self.you] as int])
        } else {
            None
        }
    }

    /// What the player enters now counts: their name, a thing that they owe, or a guess in their
    /// turn.
    pub open spec fn active(self) -> bool {
        if !self.joined {
            true
        } else if self.state.phase == "assign"@ {
            self.target() matches Some(p) ==> p.thing.len() == 0
        } else {
            self.state.phase == "play"@ && self.state.turn == self.you
        }
    }

    /// There is something to type: everywhere but in the lobby.
    pub open spec fn can_type(self) -> bool {
        !self.joined || self.state.phase != "lobby"@
    }

    /// A line of the log is shown: every one, or only those about this player.
    pub open spec fn shows(self) -> spec_fn(Seq<char>) -> bool {
        |line: Seq<char>|
            !self.mine_only || speaker_of(self.state.players, line) == Some(self.you)
    }

    /// The lines of the log that are shown.
    pub open spec fn shown(self) -> Seq<Seq<char>> {
        self.state.log.filter(self.shows())
    }

    /// How far the log can be scrolled back.
    pub open spec fn max_log_scroll(self) -> int {
        if self.shown().len() < self.log_rect.height {
            0
        } else {
            self.shown().len() - self.log_rect.height
        }
    }

    /// How far a page of the log goes: half its height, one line at least.
    pub open spec fn log_page(self) -> int {
        if self.log_rect.height / 2 < 1 {
            1
        } else {
            (self.log_rect.height / 2) as int
        }
    }

    /// The log scrolled back by `n` lines, or to its oldest.
    pub open spec fn older(self, n: int) -> AppView {
        AppView { log_scroll: least(self.log_scroll + n, self.max_log_scroll()), ..self }
    }

    /// The log scrolled forward by `n` lines, or to its newest.
    pub open spec fn newer(self, n: int) -> AppView {
        AppView {
            log_scroll: if self.log_scroll < n {
                0
            } else {
                self.log_scroll - n
            },
            ..self
        }
    }

    /// With nothing in the line of entry.
    pub open spec fn cleared(self) -> AppView {
        AppView {
            entry: NotesView {
                lines: self.entry.lines.update(0, Seq::empty()),
                col: 0,
                ..self.entry
            },
            ..self
        }
    }

    /// After the line of entry was submitted: it is kept until it counts, and then goes where the
    /// game is.
    pub open spec fn submitted(self) -> (AppView, ActionView) {
        let text = trimmed(self.entry.lines[0]);
        if text.len() == 0 {
            (self, ActionView::Nothing)
        } else if !self.active() {
            (
                AppView { flash: "not your turn yet, this waits here."@, ..self },
                ActionView::Nothing,
            )
        } else if !self.joined {
            (self.cleared(), ActionView::Connect(text))
        } else if self.state.phase == "assign"@ {
            (self.cleared(), ActionView::Send(command("thing"@, text)))
        } else {
            (self.cleared(), ActionView::Send(command("guess"@, text)))
        }
    }

    /// After a key for the line of entry.
    pub open spec fn entered(self, code: KeyCode) -> (AppView, ActionView) {
        if !self.can_type() {
            (self, ActionView::Nothing)
        } else if code is Enter {
            self.submitted()
        } else {
            (AppView { entry: edited(self.entry, code), ..self }, ActionView::Nothing)
        }
    }

    /// The letter pressed with control, if it is one that means something.
    pub open spec fn shortcut(k: KeyEvent) -> Option<char> {
        match k.code {
            KeyCode::Char(c) if k.ctrl && (c == 'q' || c == 's' || c == 'r' || c == 'k' || c == 'n'
                || c == 'g' || c == 'u' || c == 'd') => Some(c),
            _ => None,
        }
    }

    /// If the key is for the line of entry, there is one, and the key can edit it.
    pub open spec fn enterable(self, code: KeyCode) -> bool {
        self.can_type() ==> if code is Enter {
            self.entry.lines.len() > 0
        } else {
            editable(self.entry, code)
        }
    }

    /// If the key is for a text, it can edit that text.
    pub open spec fn fit_for(self, k: KeyEvent) -> bool {
        Self::shortcut(k) is None && !(k.code is Tab) ==> if self.on_notes {
            editable(self.notes, k.code)
        } else {
            self.enterable(k.code)
        }
    }

    /// After a key, but for the scrolling of the notes.
    pub open spec fn pressed(self, k: KeyEvent) -> (AppView, ActionView) {
        let s = AppView { flash: Seq::empty(), ..self };
        match Self::shortcut(k) {
            Some(c) => if c == 'q' {
                (AppView { quit: true, ..s }, ActionView::Nothing)
            } else if c == 's' {
                (s, ActionView::Send(command("start"@, Seq::empty())))
            } else if c == 'r' {
                (s, ActionView::Send(command("restart"@, Seq::empty())))
            } else if c == 'k' {
                (s, ActionView::Send(command("skip"@, Seq::empty())))
            } else if c == 'n' {
                (
                    AppView {
                        notes_hidden: !s.notes_hidden,
                        on_notes: s.on_notes && s.notes_hidden,
                        ..s
                    },
                    ActionView::Nothing,
                )
            } else if c == 'g' {
                (AppView { mine_only: !s.mine_only, log_scroll: 0, ..s }, ActionView::Nothing)
            } else if c == 'u' {
                (s.older(s.log_page()), ActionView::Nothing)
            } else {
                (s.newer(s.log_page()), ActionView::Nothing)
            },
            None => if k.code is Tab {
                (
                    AppView {
                        on_notes: if s.notes_hidden {
                            s.on_notes
                        } else {
                            !s.on_notes
                        },
                        ..s
                    },
                    ActionView::Nothing,
                )
            } else if s.on_notes {
                (AppView { notes: edited(s.notes, k.code), ..s }, ActionView::Nothing)
            } else {
                s.entered(k.code)
            },
        }
    }

    /// After a key.
    pub open spec fn keyed(self, k: KeyEvent) -> (AppView, ActionView) {
        let (s, act) = self.pressed(k);
        (
            if s.on_notes {
                AppView { notes: s.notes.followed(s.notes_inner.height), ..s }
            } else {
                s
            },
            act,
        )
    }

    /// The first of `rows` that is row `y`.
    pub open spec fn at_row(rows: Seq<(u16, Seq<char>)>, y: u16) -> Option<Seq<char>>
        decreases rows.len(),
    {
        if rows.len() == 0 {
            None
        } else if rows[0].0 == y {
            Some(rows[0].1)
        } else {
            Self::at_row(rows.drop_first(), y)
        }
    }

    /// The text that the mouse is on has a line for it.
    pub open spec fn fit_for_mouse(self, x: u16, y: u16, kind: MouseEventKind) -> bool {
        let in_notes = self.notes_inner.covers(x as int, y as int);
        let in_entry = self.entry_rect.covers(x as int, y as int);
        match kind {
            MouseEventKind::LeftDown => if Self::at_row(self.share, y) is Some {
                true
            } else if in_notes {
                self.notes.lines.len() > 0
            } else {
                in_entry && self.can_type() ==> self.entry.lines.len() > 0
            },
            MouseEventKind::LeftDrag => in_notes && self.on_notes ==> self.notes.lines.len() > 0,
            _ => true,
        }
    }

    /// After the mouse did something in column `x`, row `y`.
    pub open spec fn moused(self, x: u16, y: u16, kind: MouseEventKind) -> (AppView, ActionView) {
        let s = AppView { hover: Some(y), ..self };
        let in_notes = s.notes_inner.covers(x as int, y as int);
        let in_log = s.log_rect.covers(x as int, y as int);
        let in_entry = s.entry_rect.covers(x as int, y as int);
        let copied = if kind is LeftDown {
            Self::at_row(s.share, y)
        } else {
            None
        };
        if copied is Some {
            (s, ActionView::Copy(copied->0))
        } else {
            (
                match kind {
                    MouseEventKind::ScrollUp => if in_log {
                        s.older(WHEEL as int)
                    } else if in_notes {
                        AppView {
                            notes: s.notes.scrolled_by(-(WHEEL as int), s.notes_inner.height),
                            ..s
                        }
                    } else {
                        s
                    },
                    MouseEventKind::ScrollDown => if in_log {
                        s.newer(WHEEL as int)
                    } else if in_notes {
                        AppView {
                            notes: s.notes.scrolled_by(WHEEL as int, s.notes_inner.height),
                            ..s
                        }
                    } else {
                        s
                    },
                    MouseEventKind::LeftDown => if in_notes {
                        AppView {
                            on_notes: true,
                            notes: s.notes.clicked(x, y, s.notes_inner),
                            ..s
                        }
                    } else if in_entry && s.can_type() {
                        let dx = if x < s.entry_rect.x + 2 {
                            0
                        } else {
                            x - (s.entry_rect.x + 2)
                        };
                        AppView {
                            on_notes: false,
                            entry: NotesView {
                                col: least(dx, s.entry.lines[0].len() as int),
                                ..s.entry
                            },
                            ..s
                        }
                    } else {
                        s
                    },
                    MouseEventKind::LeftDrag => if in_notes && s.on_notes {
                        AppView { notes: s.notes.dragged_to(x, y, s.notes_inner), ..s }
                    } else {
                        s
                    },
                    MouseEventKind::Moved => s,
                    MouseEventKind::Other => s,
                },
                ActionView::Nothing,
            )
        }
    }

    /// The game came to a new round with update `u`: things are named that were not before, or the
    /// log has been cut short.
    pub open spec fn new_round(self, u: UpdateView) -> bool {
        u.state.phase == "assign"@ && (self.state.phase != "assign"@ || u.state.log.len()
            < self.state.log.len())
    }

    /// After the updates `us` came in, of which only the last counts.
    pub open spec fn drained(self, us: Seq<UpdateView>) -> AppView {
        if us.len() == 0 {
            self
        } else {
            let u = us.last();
            AppView {
                state: u.state,
                you: u.you,
                joined: true,
                entry: if self.new_round(u) {
                    NotesView::blank()
                } else {
                    self.entry
                },
                ..self
            }
        }
    }
}

/// The first player whose name `line` begins with.
pub fn speaker(state: &State, line: &str) -> (who: Option<usize>)
    ensures
        (match who {
            Some(i) => Some(i as int),
            None => None,
        }) == speaker_of(state@.players, line@),
{
    let ghost all = state@.players;
    let mut i: usize = 0;
    assert(all.take(0) =~= Seq::empty());
    while i < state.players.len()
        invariant
            i <= state.players.len(),
            all == state@.players,
            speaker_of(all.take(i as int), line@) is None,
        decreases state.players.len() - i,
    {
        proof {
            assert(all.take(i + 1).drop_last() =~= all.take(i as int));
            assert(all.take(i + 1).last() == state.players[i as int]@);
        }
        if starts_with(line, &state.players[i].name) {
            proof {
                lemma_speaker_of_more(all.take(i + 1), all, line@);
            }
            return Some(i);
        }
        i += 1;
    }
    assert(all.take(i as int) =~= all);
    None
}

/// Players further down do not change who speaks first.
proof fn lemma_speaker_of_more(some: Seq<PlayerView>, all: Seq<PlayerView>, line: Seq<char>)
    requires
        some.len() <= all.len(),
        some == all.take(some.len() as int),
        speaker_of(some, line) is Some,
    ensures
        speaker_of(all, line) == speaker_of(some, line),
    decreases all.len(),
{
    if some.len() < all.len() {
        assert(all.drop_last().take(some.len() as int) =~= some);
        lemma_speaker_of_more(some, all.drop_last(), line);
    } else {
        assert(all.take(some.len() as int) =~= all);
    }
}

/// Edits a text by a key.
pub fn edit(n: &mut Notes, code: KeyCode)
    requires
        editable(old(n)@, code),
    ensures
        final(n)@ == edited(old(n)@, code),
{
    match code {
        KeyCode::Left | KeyCode::Right | KeyCode::Up | KeyCode::Down | KeyCode::Home
        | KeyCode::End => {
            n.clear_selection();
        },
        _ => {},
    }
    match code {
        KeyCode::Char(c) => n.insert(c),
        KeyCode::Enter => n.newline(),
        KeyCode::Backspace => n.backspace(),
        KeyCode::Delete => n.delete(),
        KeyCode::Left => n.left(),
        KeyCode::Right => n.right(),
        KeyCode::Up => n.up(),
        KeyCode::Down => n.down(),
        KeyCode::Home => n.home(),
        KeyCode::End => n.end(),
        KeyCode::Tab => {},
        KeyCode::Other => {},
    }
}

/// Whether the key can edit the text.
pub fn can_edit(n: &Notes, code: KeyCode) -> (yes: bool)
    ensures
        yes == editable(n@, code),
{
    match code {
        KeyCode::Char(_) => n.can_insert(),
        KeyCode::Enter => n.can_cut(),
        KeyCode::Backspace => n.can_backspace(),
        KeyCode::Delete => n.can_cut(),
        KeyCode::Left => n.col > 0 || n.can_go_up(),
        KeyCode::Right => n.row < n.lines.len(),
        KeyCode::Up => n.can_go_up(),
        KeyCode::Down => n.can_go_down(),
        KeyCode::Home => true,
        KeyCode::End => n.row < n.lines.len(),
        KeyCode::Tab => true,
        KeyCode::Other => true,
    }
}

fn order(cmd: &str, text: String) -> (c: Cmd)
    ensures
        c@ == command(cmd@, text@),
{
    Cmd { cmd: cmd.to_owned(), name: String::new(), text }
}

impl App {
    /// A player that has not joined, bound for the game at `addr` or, without one, to host at
    /// `port`.
    pub fn new(addr: Option<String>, port: String) -> (a: App)
        ensures
            a.addr == addr,
            a.port == port,
            a@ == AppView::fresh(maybe(addr), port@),
    {
        let a = App {
            addr,
            port,
            state: Default::default(),
            you: 0,
            joined: false,
            err: String::new(),
            flash: String::new(),
            share: Vec::new(),
            hover: None,
            pub_ip: String::new(),
            entry: Notes::new(),
            notes: Notes::new(),
            on_notes: false,
            notes_inner: Rect::zero(),
            entry_rect: Rect::zero(),
            log_rect: Rect::zero(),
            log_scroll: 0,
            notes_hidden: false,
            mine_only: false,
            quit: false,
        };
        assert(a@.share =~= Seq::empty());
        a
    }

    /// The player whom this one names a thing for.
    pub fn target(&self) -> (p: Option<&Player>)
        ensures
            (match p {
                Some(p) => Some(p@),
                None => None,
            }) == self@.target(),
    {
        if self.you >= self.state.assigns.len() {
            return None;
        }
        let t = self.state.assigns[self.you];
        if t < 0 || t as usize >= self.state.players.len() {
            return None;
        }
        Some(&self.state.players[t as usize])
    }

    /// The name of the player whom this one names a thing for; empty if there is none.
    pub fn target_name(&self) -> (name: String)
        ensures
            name@ == (match self@.target() {
                Some(p) => p.name,
                None => Seq::empty(),
            }),
    {
        match self.target() {
            Some(p) => p.name.clone(),
            None => String::new(),
        }
    }

    /// Whether what the player enters now counts.
    pub fn active(&self) -> (yes: bool)
        ensures
            yes == self@.active(),
    {
        if !self.joined {
            true
        } else if same(&self.state.phase, "assign") {
            match self.target() {
                Some(p) => p.thing.as_str().is_empty(),
                None => true,
            }
        } else {
            same(&self.state.phase, "play") && self.state.turn == self.you
        }
    }

    /// Whether there is something to type.
    pub fn can_type(&self) -> (yes: bool)
        ensures
            yes == self@.can_type(),
    {
        !self.joined || !same(&self.state.phase, "lobby")
    }

    /// How far a page of the log goes.
    pub fn log_page(&self) -> (n: usize)
        ensures
            n == self@.log_page(),
    {
        let half: usize = (self.log_rect.height / 2) as usize;
        if half < 1 {
            1
        } else {
            half
        }
    }

    /// The lines of the log that are shown.
    pub fn log_lines(&self) -> (lines: Vec<String>)
        ensures
            views(lines@) == self@.shown(),
    {
        let ghost all = self@.state.log;
        let ghost want = self@.shows();
        let mut lines: Vec<String> = Vec::new();
        let mut i: usize = 0;
        proof {
            reveal(Seq::filter);
            assert(all.take(0) =~= Seq::empty());
            assert(views(lines@) =~= all.take(0).filter(want));
        }
        while i < self.state.log.len()
            invariant
                i <= self.state.log.len(),
                all == self@.state.log,
                want == self@.shows(),
                views(lines@) == all.take(i as int).filter(want),
            decreases self.state.log.len() - i,
        {
            let ghost was = lines@;
            let line = &self.state.log[i];
            let mine = match speaker(&self.state, line) {
                Some(who) => who == self.you,
                None => false,
            };
            let show = !self.mine_only || mine;
            if show {
                lines.push(line.clone());
            }
            proof {
                reveal(Seq::filter);
                assert(all.take(i + 1).drop_last() =~= all.take(i as int));
                assert(all.take(i + 1).last() == line@);
                assert(show == want(line@));
                if show {
                    assert(views(lines@) =~= views(was).push(line@));
                }
            }
            i += 1;
        }
        assert(all.take(i as int) =~= all);
        lines
    }

    /// How far the log can be scrolled back.
    pub fn max_log_scroll(&self) -> (n: usize)
        ensures
            n == self@.max_log_scroll(),
    {
        let lines = self.log_lines();
        assert(views(lines@).len() == lines.len());
        lines.len().saturating_sub(self.log_rect.height as usize)
    }

    fn older(&mut self, n: usize)
        ensures
            final(self)@ == old(self)@.older(n as int),
    {
        let to = self.log_scroll.saturating_add(n);
        let max = self.max_log_scroll();
        self.log_scroll = if to < max { to } else { max };
    }

    fn newer(&mut self, n: usize)
        ensures
            final(self)@ == old(self)@.newer(n as int),
    {
        self.log_scroll = self.log_scroll.saturating_sub(n);
    }

    /// Submits the line of entry.
    pub fn submit(&mut self) -> (act: Action)
        requires
            old(self).entry.lines.len() > 0,
        ensures
            (final(self)@, act@) == old(self)@.submitted(),
    {
        let ghost was = self@;
        let text = trim(&self.entry.lines[0]);
        if text.as_str().is_empty() {
            return Action::Nothing;
        }
        if !self.active() {
            self.flash = "not your turn yet, this waits here.".to_owned();
            return Action::Nothing;
        }
        self.entry.lines[0] = String::new();
        self.entry.col = 0;
        assert(self@.entry.lines =~= was.cleared().entry.lines);
        if !self.joined {
            return Action::Connect(text);
        }
        let cmd = if same(&self.state.phase, "assign") { "thing" } else { "guess" };
        Action::Send(order(cmd, text))
    }

    /// Handles a key for the line of entry.
    pub fn entry_key(&mut self, k: KeyEvent) -> (act: Action)
        requires
            old(self)@.enterable(k.code),
        ensures
            (final(self)@, act@) == old(self)@.entered(k.code),
    {
        if !self.can_type() {
            return Action::Nothing;
        }
        if k.code == KeyCode::Enter {
            self.submit()
        } else {
            edit(&mut self.entry, k.code);
            Action::Nothing
        }
    }

    fn press(&mut self, k: KeyEvent) -> (act: Action)
        requires
            old(self)@.fit_for(k),
        ensures
            (final(self)@, act@) == old(self)@.pressed(k),
    {
        self.flash = String::new();
        if let KeyCode::Char(c) = k.code {
            if k.ctrl {
                match c {
                    'q' => {
                        self.quit = true;
                        return Action::Nothing;
                    },
                    's' => {
                        return Action::Send(order("start", String::new()));
                    },
                    'r' => {
                        return Action::Send(order("restart", String::new()));
                    },
                    'k' => {
                        return Action::Send(order("skip", String::new()));
                    },
                    'n' => {
                        self.notes_hidden = !self.notes_hidden;
                        if self.notes_hidden {
                            self.on_notes = false;
                        }
                        return Action::Nothing;
                    },
                    'g' => {
                        self.mine_only = !self.mine_only;
                        self.log_scroll = 0;
                        return Action::Nothing;
                    },
                    'u' => {
                        let n = self.log_page();
                        self.older(n);
                        return Action::Nothing;
                    },
                    'd' => {
                        let n = self.log_page();
                        self.newer(n);
                        return Action::Nothing;
                    },
                    _ => {},
                }
            }
        }
        if k.code == KeyCode::Tab {
            if !self.notes_hidden {
                self.on_notes = !self.on_notes;
            }
            Action::Nothing
        } else if self.on_notes {
            edit(&mut self.notes, k.code);
            Action::Nothing
        } else {
            self.entry_key(k)
        }
    }

    /// Whether the key, if it is for a text, can edit that text.
    pub fn is_fit_for(&self, k: KeyEvent) -> (yes: bool)
        ensures
            yes == self@.fit_for(k),
    {
        if let KeyCode::Char(c) = k.code {
            if k.ctrl {
                match c {
                    'q' | 's' | 'r' | 'k' | 'n' | 'g' | 'u' | 'd' => {
                        return true;
                    },
                    _ => {},
                }
            }
        }
        if k.code == KeyCode::Tab {
            true
        } else if self.on_notes {
            can_edit(&self.notes, k.code)
        } else if !self.can_type() {
            true
        } else if k.code == KeyCode::Enter {
            self.entry.lines.len() > 0
        } else {
            can_edit(&self.entry, k.code)
        }
    }

    /// Handles a key.
    pub fn on_key(&mut self, k: KeyEvent) -> (act: Action)
        requires
            old(self)@.fit_for(k),
        ensures
            (final(self)@, act@) == old(self)@.keyed(k),
    {
        let act = self.press(k);
        if self.on_notes {
            self.notes.follow(self.notes_inner.height);
        }
        act
    }

    /// What a click in row `y` copies, if it copies anything.
    pub fn copy_share(&self, y: u16) -> (text: Option<String>)
        ensures
            maybe(text) == AppView::at_row(self@.share, y),
    {
        let ghost all = self@.share;
        let mut i: usize = 0;
        assert(all.skip(0) =~= all);
        while i < self.share.len()
            invariant
                i <= self.share.len(),
                all == self@.share,
                AppView::at_row(all.skip(i as int), y) == AppView::at_row(all, y),
            decreases self.share.len() - i,
        {
            proof {
                assert(all.skip(i as int)[0] == all[i as int]);
                assert(all.skip(i as int).drop_first() =~= all.skip(i + 1));
            }
            if self.share[i].0 == y {
                return Some(self.share[i].1.clone());
            }
            i += 1;
        }
        None
    }

    /// Says whether `addr` came to the clipboard, or why not.
    pub fn copied(&mut self, addr: &str, done: Result<(), String>)
        ensures
            final(self)@ == old(self)@.told_copied(
                addr@,
                match done {
                    Ok(_) => Ok(()),
                    Err(e) => Err(e@),
                },
            ),
    {
        self.flash = match done {
            Ok(_) => plus("copied ", addr),
            Err(e) => plus("could not copy: ", &e),
        };
    }

    /// Says that the host can no longer be reached.
    pub fn send_failed(&mut self)
        ensures
            final(self)@ == old(self)@.told_lost(),
    {
        self.err = "connection lost".to_owned();
    }

    /// Says why the host could not be reached.
    pub fn connect_failed(&mut self, why: &str)
        ensures
            final(self)@ == old(self)@.told_refused(why@),
    {
        self.err = plus("could not connect: ", why);
    }

    /// Whether the text that the mouse is on has a line for it.
    pub fn is_fit_for_mouse(&self, x: u16, y: u16, kind: MouseEventKind) -> (yes: bool)
        ensures
            yes == self@.fit_for_mouse(x, y, kind),
    {
        let in_notes = self.notes_inner.contains(x, y);
        match kind {
            MouseEventKind::LeftDown => {
                if self.copy_share(y).is_some() {
                    true
                } else if in_notes {
                    self.notes.lines.len() > 0
                } else {
                    !(self.entry_rect.contains(x, y) && self.can_type()) || self.entry.lines.len()
                        > 0
                }
            },
            MouseEventKind::LeftDrag => !(in_notes && self.on_notes) || self.notes.lines.len() > 0,
            _ => true,
        }
    }

    /// Handles the mouse in column `x`, row `y`.
    pub fn on_mouse(&mut self, x: u16, y: u16, kind: MouseEventKind) -> (act: Action)
        requires
            old(self)@.fit_for_mouse(x, y, kind),
        ensures
            (final(self)@, act@) == old(self)@.moused(x, y, kind),
    {
        self.hover = Some(y);
        if kind == MouseEventKind::LeftDown {
            if let Some(text) = self.copy_share(y) {
                return Action::Copy(text);
            }
        }
        let in_notes = self.notes_inner.contains(x, y);
        let in_log = self.log_rect.contains(x, y);
        match kind {
            MouseEventKind::ScrollUp => {
                if in_log {
                    self.older(WHEEL);
                } else if in_notes {
                    self.notes.scroll_by(-(WHEEL as isize), self.notes_inner.height);
                }
            },
            MouseEventKind::ScrollDown => {
                if in_log {
                    self.newer(WHEEL);
                } else if in_notes {
                    self.notes.scroll_by(WHEEL as isize, self.notes_inner.height);
                }
            },
            MouseEventKind::LeftDown => {
                if in_notes {
                    self.on_notes = true;
                    self.notes.click(x, y, self.notes_inner);
                } else if self.entry_rect.contains(x, y) && self.can_type() {
                    self.on_notes = false;
                    let dx = x.saturating_sub(self.entry_rect.x.saturating_add(2)) as usize;
                    let n = width(&self.entry.lines[0]);
                    self.entry.col = if dx < n { dx } else { n };
                }
            },
            MouseEventKind::LeftDrag => {
                if in_notes && self.on_notes {
                    self.notes.drag_to(x, y, self.notes_inner);
                }
            },
            MouseEventKind::Moved => {},
            MouseEventKind::Other => {},
        }
        Action::Nothing
    }

    /// Takes in the updates that came since the last time, of which only the last counts.
    pub fn drain(&mut self, updates: Vec<Update>)
        ensures
            final(self)@ == old(self)@.drained(letters_out(updates@)),
    {
        let ghost us = letters_out(updates@);
        let mut updates = updates;
        if let Some(u) = updates.pop() {
            assert(us.last() == u@);
            let new_round = same(&u.state.phase, "assign") && (!same(&self.state.phase, "assign")
                || u.state.log.len() < self.state.log.len());
            assert(new_round == self@.new_round(u@));
            self.state = u.state;
            self.you = u.you;
            self.joined = true;
            if new_round {
                self.entry = Notes::new();
            }
        }
    }
}

} // verus!
