//! What each key, each click and each update does to a player's side of the game.

use crate::app::{
    edited, speaker_of, Action, ActionView, App, AppView,
};
use crate::game::{CmdView, PlayerView, StateView, UpdateView};
use crate::input::{KeyCode, KeyEvent, MouseEventKind};
use crate::notes::NotesView;
use crate::text::{begins, trimmed, white_space};
use crate::text_laws::only_blank_texts_trim_to_nothing;
use vstd::prelude::*;

verus! {

/// A line speaks of the first player whose name it begins with, and of nobody if there is none.
pub proof fn a_line_speaks_of_the_first_name(players: Seq<PlayerView>, line: Seq<char>)
    ensures
        match speaker_of(players, line) {
            Some(i) => {
                &&& 0 <= i < players.len()
                &&& begins(line, players[i].name)
                &&& forall|j: int| 0 <= j < i ==> !begins(line, (#[trigger] players[j]).name)
            },
            None => forall|j: int|
                0 <= j < players.len() ==> !begins(line, (#[trigger] players[j]).name),
        },
    decreases players.len(),
{
    if players.len() > 0 {
        let init = players.drop_last();
        a_line_speaks_of_the_first_name(init, line);
        assert forall|j: int| 0 <= j < init.len() implies #[trigger] players[j] == init[j] by {}
    }
}

/// Whom a player names a thing for is whom the draw says, if there is such a player.
pub proof fn the_target_is_whom_the_draw_says(a: AppView)
    requires
        a.you >= 0,
    ensures
        a.target() is Some <==> a.you < a.state.assigns.len() && 0 <= a.state.assigns[a.you]
            < a.state.players.len(),
        a.target() matches Some(p) ==> p == a.state.players[a.state.assigns[a.you] as int],
{
}

/// An entry counts before joining; while things are named, unless the target has one; and in the
/// player's own turn. There is something to type everywhere but in the lobby.
pub proof fn when_an_entry_counts(a: AppView)
    ensures
        !a.joined ==> a.active() && a.can_type(),
        a.joined && a.state.phase == "assign"@ ==> (a.active() <==> !(a.target() is Some
            && a.target()->0.thing.len() > 0)),
        a.joined && a.state.phase == "play"@ && a.state.phase != "assign"@ ==> (a.active()
            <==> a.state.turn == a.you),
        a.joined && a.state.phase != "play"@ && a.state.phase != "assign"@ ==> !a.active(),
        a.joined ==> (a.can_type() <==> a.state.phase != "lobby"@),
{
}

/// The log shows all of its lines in their order or, if asked for the player's own, exactly those
/// that speak of the player.
pub proof fn the_log_shows_what_it_is_asked_for(a: AppView, line: Seq<char>)
    ensures
        !a.mine_only ==> a.shown() == a.state.log,
        a.state.log.len() == 0 ==> a.shown().len() == 0,
        ({
            let b = AppView {
                state: StateView { log: a.state.log.push(line), ..a.state },
                ..a
            };
            b.shown() == (if !a.mine_only || speaker_of(a.state.players, line) == Some(a.you) {
                a.shown().push(line)
            } else {
                a.shown()
            })
        }),
{
    reveal(Seq::filter);
    let b = AppView {
        state: StateView { log: a.state.log.push(line), ..a.state },
        ..a
    };
    assert(b.shows() =~= a.shows());
    assert(b.state.log.drop_last() =~= a.state.log);
    if !a.mine_only {
        lemma_all_kept(a.state.log, a.shows());
    }
}

proof fn lemma_all_kept(log: Seq<Seq<char>>, want: spec_fn(Seq<char>) -> bool)
    requires
        forall|l: Seq<char>| #[trigger] want(l),
    ensures
        log.filter(want) == log,
    decreases log.len(),
{
    reveal(Seq::filter);
    if log.len() > 0 {
        lemma_all_kept(log.drop_last(), want);
        assert(log.drop_last().push(log.last()) =~= log);
    } else {
        assert(log.filter(want) =~= log);
    }
}

/// A page is half of the log's height, one line at least; the log scrolls back by as many lines as
/// it is asked to, or until its oldest line is the first in view, and forward likewise to its
/// newest. Nothing else changes.
pub proof fn the_log_scrolls_as_far_as_it_can(a: AppView, n: int)
    requires
        n >= 0,
        a.log_scroll >= 0,
    ensures
        ({
            let h = a.log_rect.height as int;
            let most = if a.shown().len() > h {
                a.shown().len() - h
            } else {
                0
            };
            let to = |k: int| AppView { log_scroll: k, ..a };
            &&& a.max_log_scroll() == most
            &&& 2 <= h ==> a.log_page() * 2 <= h < a.log_page() * 2 + 2
            &&& h < 2 ==> a.log_page() == 1
            &&& a.log_scroll + n <= most ==> a.older(n) == to(a.log_scroll + n)
            &&& a.log_scroll + n > most ==> a.older(n) == to(most)
            &&& a.log_scroll >= n ==> a.newer(n) == to(a.log_scroll - n)
            &&& a.log_scroll < n ==> a.newer(n) == to(0)
        }),
{
}

/// The line of entry is empty, the cursor at its start, and nothing else changed.
pub open spec fn emptied(a: AppView, b: AppView) -> bool {
    b == AppView {
        entry: NotesView {
            lines: a.entry.lines.update(0, Seq::empty()),
            col: 0,
            ..a.entry
        },
        ..a
    }
}

/// Submitting does nothing with a blank entry; keeps and says so of one that does not count yet;
/// and else sends it, without white space around it, as a name to join with, a thing or a guess,
/// and empties the line.
pub proof fn submitting_sends_what_counts(a: AppView)
    requires
        a.entry.lines.len() > 0,
    ensures
        ({
            let typed = a.entry.lines[0];
            let text = trimmed(typed);
            let (b, act) = a.submitted();
            let send = |cmd: Seq<char>|
                ActionView::Send(CmdView { cmd, name: Seq::empty(), text });
            &&& (forall|i: int| 0 <= i < typed.len() ==> white_space(#[trigger] typed[i])) ==> b
                == a && act is Nothing
            &&& (exists|i: int| 0 <= i < typed.len() && !white_space(#[trigger] typed[i])) ==> {
                &&& !a.active() ==> b == (AppView {
                    flash: "not your turn yet, this waits here."@,
                    ..a
                }) && act is Nothing
                &&& a.active() ==> emptied(a, b)
                &&& !a.joined ==> act == ActionView::Connect(text)
                &&& a.active() && a.joined && a.state.phase == "assign"@ ==> act == send("thing"@)
                &&& a.active() && a.joined && a.state.phase != "assign"@ ==> act == send("guess"@)
            }
        }),
{
    only_blank_texts_trim_to_nothing(a.entry.lines[0]);
}

/// Nothing changes but that the message goes and, if the notes have the focus, they follow their
/// cursor.
pub open spec fn settled(a: AppView) -> AppView {
    AppView {
        flash: Seq::empty(),
        notes: if a.on_notes {
            a.notes.followed(a.notes_inner.height)
        } else {
            a.notes
        },
        ..a
    }
}

/// A letter pressed with control.
pub open spec fn control(c: char) -> KeyEvent {
    KeyEvent { code: KeyCode::Char(c), ctrl: true }
}

/// A command to the host without a text.
pub open spec fn bare(cmd: Seq<char>) -> ActionView {
    ActionView::Send(CmdView { cmd, name: Seq::empty(), text: Seq::empty() })
}

/// Control and q quits; s, r and k ask the host to start, to restart and to pass. Nothing else
/// changes.
pub proof fn control_keys_ask_the_host(a: AppView)
    ensures
        a.keyed(control('q')) == (settled(AppView { quit: true, ..a }), ActionView::Nothing),
        a.keyed(control('s')) == (settled(a), bare("start"@)),
        a.keyed(control('r')) == (settled(a), bare("restart"@)),
        a.keyed(control('k')) == (settled(a), bare("skip"@)),
{
}

/// Control and n hides the notes, taking the focus from them, or shows them, without giving it to
/// them; g shows all of the log, or only the player's own lines, from the newest; u and d go back
/// and forward in it by a page; tab moves the focus, unless the notes are hidden. Nothing else
/// changes, and nothing is sent.
pub proof fn other_control_keys_change_the_view(a: AppView)
    ensures
        ({
            let tab = KeyEvent { code: KeyCode::Tab, ctrl: false };
            let none = ActionView::Nothing;
            &&& !a.notes_hidden ==> a.keyed(control('n')) == (
                settled(AppView { notes_hidden: true, on_notes: false, ..a }),
                none,
            )
            &&& a.notes_hidden ==> a.keyed(control('n')) == (
                settled(AppView { notes_hidden: false, ..a }),
                none,
            )
            &&& a.keyed(control('g')) == (
                settled(AppView { mine_only: !a.mine_only, log_scroll: 0, ..a }),
                none,
            )
            &&& a.keyed(control('u')).1 is Nothing && a.keyed(control('d')).1 is Nothing
            &&& a.keyed(control('u')).0 == settled(a.older(a.log_page()))
            &&& a.keyed(control('d')).0 == settled(a.newer(a.log_page()))
            &&& a.notes_hidden ==> a.keyed(tab) == (settled(a), none)
            &&& !a.notes_hidden ==> a.keyed(tab) == (
                settled(AppView { on_notes: !a.on_notes, ..a }),
                none,
            )
        }),
{
    let s = AppView { flash: Seq::empty(), ..a };
    assert(s.shows() =~= a.shows());
}

/// The key is for a text: it is no tab, and no letter that means something with control.
pub open spec fn for_a_text(k: KeyEvent) -> bool {
    &&& !(k.code is Tab)
    &&& k.ctrl ==> !(k.code == KeyCode::Char('q') || k.code == KeyCode::Char('s') || k.code
        == KeyCode::Char('r') || k.code == KeyCode::Char('k') || k.code == KeyCode::Char('n')
        || k.code == KeyCode::Char('g') || k.code == KeyCode::Char('u') || k.code == KeyCode::Char(
        'd',
    ))
}

/// Any other key edits the notes, if they have the focus, and else the line of entry, where enter
/// submits; in the lobby there is no line of entry. Nothing else changes.
pub proof fn other_keys_edit_one_text(a: AppView, k: KeyEvent)
    requires
        for_a_text(k),
    ensures
        ({
            let s = AppView { flash: Seq::empty(), ..a };
            let typing = !a.joined || a.state.phase != "lobby"@;
            &&& a.on_notes ==> a.keyed(k) == (
                settled(AppView { notes: edited(a.notes, k.code), ..a }),
                ActionView::Nothing,
            )
            &&& !a.on_notes && !typing ==> a.keyed(k) == (s, ActionView::Nothing)
            &&& !a.on_notes && typing && k.code is Enter ==> a.keyed(k) == s.submitted()
            &&& !a.on_notes && typing && !(k.code is Enter) ==> a.keyed(k) == (
                AppView { entry: edited(a.entry, k.code), ..s },
                ActionView::Nothing,
            )
        }),
{
}

/// Each key edits as it is labelled, and those that move the cursor drop the selection first.
pub proof fn keys_edit_as_they_are_labelled(n: NotesView, c: char)
    ensures
        ({
            let m = NotesView { anchor: None, ..n };
            &&& edited(n, KeyCode::Char(c)) == n.inserted(c)
            &&& edited(n, KeyCode::Enter) == n.broken()
            &&& edited(n, KeyCode::Backspace) == n.backspaced()
            &&& edited(n, KeyCode::Delete) == n.deleted()
            &&& edited(n, KeyCode::Left) == m.to_left()
            &&& edited(n, KeyCode::Right) == m.to_right()
            &&& edited(n, KeyCode::Up) == m.to_up()
            &&& edited(n, KeyCode::Down) == m.to_down()
            &&& edited(n, KeyCode::Home) == NotesView { col: 0, ..m }
            &&& edited(n, KeyCode::End) == NotesView { col: n.lines[n.row].len() as int, ..m }
            &&& edited(n, KeyCode::Tab) == n
            &&& edited(n, KeyCode::Other) == n
        }),
{
}

/// What a row copies is what the first entry for that row says, and nothing if there is none.
pub proof fn a_row_copies_its_own_command(rows: Seq<(u16, Seq<char>)>, y: u16)
    ensures
        match AppView::at_row(rows, y) {
            Some(text) => exists|i: int|
                0 <= i < rows.len() && #[trigger] rows[i] == (y, text) && forall|j: int|
                    0 <= j < i ==> (#[trigger] rows[j]).0 != y,
            None => forall|j: int| 0 <= j < rows.len() ==> (#[trigger] rows[j]).0 != y,
        },
    decreases rows.len(),
{
    if rows.len() > 0 {
        let rest = rows.drop_first();
        if rows[0].0 == y {
            assert(rows[0] == (y, rows[0].1));
        } else {
            a_row_copies_its_own_command(rest, y);
            assert forall|j: int| 0 <= j < rest.len() implies #[trigger] rest[j] == rows[j + 1] by {
            }
            if let Some(text) = AppView::at_row(rest, y) {
                let i = choose|i: int|
                    0 <= i < rest.len() && #[trigger] rest[i] == (y, text) && forall|j: int|
                        0 <= j < i ==> (#[trigger] rest[j]).0 != y;
                assert(rows[i + 1] == (y, text));
                assert forall|j: int| 0 <= j < i + 1 implies (#[trigger] rows[j]).0 != y by {
                    if j > 0 {
                        assert(rest[j - 1] == rows[j]);
                    }
                }
            } else {
                assert forall|j: int| 0 <= j < rows.len() implies (#[trigger] rows[j]).0 != y by {
                    if j > 0 {
                        assert(rest[j - 1] == rows[j]);
                    }
                }
            }
        }
    }
}

/// The mouse is always noted. The wheel scrolls the log, if it is over the log, or else the notes,
/// if it is over them, by three lines.
pub proof fn the_wheel_scrolls_what_is_under_it(a: AppView, x: u16, y: u16)
    ensures
        ({
            let s = AppView { hover: Some(y), ..a };
            let in_log = a.log_rect.covers(x as int, y as int);
            let in_notes = a.notes_inner.covers(x as int, y as int);
            let h = a.notes_inner.height;
            let up = a.moused(x, y, MouseEventKind::ScrollUp);
            let down = a.moused(x, y, MouseEventKind::ScrollDown);
            &&& up.1 is Nothing && down.1 is Nothing
            &&& in_log ==> up.0 == s.older(3) && down.0 == s.newer(3)
            &&& !in_log && in_notes ==> up.0 == (AppView { notes: a.notes.scrolled_by(-3, h), ..s })
            &&& !in_log && in_notes ==> down.0 == (AppView {
                notes: a.notes.scrolled_by(3, h),
                ..s
            })
            &&& !in_log && !in_notes ==> up.0 == s && down.0 == s
            &&& a.moused(x, y, MouseEventKind::Moved) == (s, ActionView::Nothing)
            &&& a.moused(x, y, MouseEventKind::Other) == (s, ActionView::Nothing)
        }),
{
}

/// A click copies the command in its row, if there is one, and does nothing else; or else goes to
/// the notes, if it is in them, and gives them the focus; or else to the line of entry, if it is in
/// that and there is something to type, right behind the prompt of two cells. A drag goes to the
/// notes alone, if they have the focus.
pub proof fn a_click_goes_where_it_points(a: AppView, x: u16, y: u16)
    ensures
        ({
            let s = AppView { hover: Some(y), ..a };
            let row = AppView::at_row(a.share, y);
            let in_notes = a.notes_inner.covers(x as int, y as int);
            let in_entry = a.entry_rect.covers(x as int, y as int);
            let (b, act) = a.moused(x, y, MouseEventKind::LeftDown);
            let drag = a.moused(x, y, MouseEventKind::LeftDrag);
            let typing = in_entry && a.can_type();
            let dx = x - (a.entry_rect.x + 2);
            let len = a.entry.lines[0].len();
            &&& row matches Some(text) ==> b == s && act == ActionView::Copy(text)
            &&& row is None ==> act is Nothing
            &&& row is None && in_notes ==> b == (AppView {
                on_notes: true,
                notes: a.notes.clicked(x, y, a.notes_inner),
                ..s
            })
            &&& row is None && !in_notes && typing ==> {
                &&& b == (AppView {
                    on_notes: false,
                    entry: NotesView { col: b.entry.col, ..a.entry },
                    ..s
                })
                &&& dx <= 0 ==> b.entry.col == 0
                &&& 0 < dx <= len ==> b.entry.col == dx
                &&& dx > 0 && dx > len ==> b.entry.col == len
            }
            &&& row is None && !in_notes && !typing ==> b == s
            &&& drag.1 is Nothing
            &&& in_notes && a.on_notes ==> drag.0 == (AppView {
                notes: a.notes.dragged_to(x, y, a.notes_inner),
                ..s
            })
            &&& !in_notes || !a.on_notes ==> drag.0 == s
        }),
{
}

/// The last update that came is the game, with the player's place in it, and the player has joined;
/// without one nothing changes. The entry is emptied where things come to be named that were not,
/// or where the log got shorter while they are, and nothing else of the player's side changes.
pub proof fn an_update_is_the_game(a: AppView, us: Seq<UpdateView>)
    ensures
        us.len() == 0 ==> a.drained(us) == a,
        us.len() > 0 ==> ({
            let u = us[us.len() - 1];
            let b = a.drained(us);
            let anew = u.state.phase == "assign"@ && (a.state.phase != "assign"@
                || u.state.log.len() < a.state.log.len());
            &&& b == (AppView {
                state: u.state,
                you: u.you,
                joined: true,
                entry: b.entry,
                ..a
            })
            &&& !anew ==> b.entry == a.entry
            &&& anew ==> b.entry == (NotesView {
                lines: seq![Seq::empty()],
                row: 0,
                col: 0,
                scroll: 0,
                anchor: None,
            })
        }),
{
}

/// A new player has not joined, has typed nothing, has nothing to read but that, and everything is
/// shown to them; their side is sound.
pub proof fn a_new_player_starts_afresh(addr: Option<Seq<char>>, port: Seq<char>)
    ensures
        ({
            let a = AppView::fresh(addr, port);
            &&& a.addr == addr && a.port == port && a.you == 0
            &&& !a.joined && !a.quit && !a.notes_hidden && !a.mine_only && !a.on_notes
            &&& a.err.len() == 0 && a.flash.len() == 0 && a.pub_ip.len() == 0
            &&& a.share.len() == 0 && a.hover is None && a.log_scroll == 0
            &&& a.state.players.len() == 0 && a.state.log.len() == 0
            &&& a.state.assigns.len() == 0 && a.state.phase.len() == 0
            &&& a.state.turn == 0 && a.state.deadline == 0
            &&& a.notes_inner.width == 0 && a.entry_rect.width == 0 && a.log_rect.width == 0
            &&& a.sound()
        }),
{
}

/// A message about the clipboard says what came of it, and an error about the connection why;
/// nothing else changes.
pub proof fn failures_are_told_apart(
    a: AppView,
    text: Seq<char>,
    done: Result<(), Seq<char>>,
    why: Seq<char>,
)
    ensures
        done is Ok ==> a.told_copied(text, done) == (AppView { flash: "copied "@ + text, ..a }),
        done matches Err(e) ==> a.told_copied(text, done) == (AppView {
            flash: "could not copy: "@ + e,
            ..a
        }),
        a.told_lost() == (AppView { err: "connection lost"@, ..a }),
        a.told_refused(why) == (AppView { err: "could not connect: "@ + why, ..a }),
{
}

/// The view of a player's side, and of what is to be done, has all of it.
pub proof fn a_players_side_is_in_its_view(a: App, act: Action)
    ensures
        a@.addr is None <==> a.addr is None,
        a.addr matches Some(s) ==> a@.addr == Some(s@),
        a@.port == a.port@ && a@.pub_ip == a.pub_ip@,
        a@.state == a.state@ && a@.you == a.you && a@.joined == a.joined,
        a@.err == a.err@ && a@.flash == a.flash@,
        a@.share.len() == a.share.len(),
        forall|i: int| #![trigger a@.share[i]]
            0 <= i < a.share.len() ==> a@.share[i] == (a.share[i].0, a.share[i].1@),
        a@.hover == a.hover,
        a@.entry == a.entry@ && a@.notes == a.notes@ && a@.on_notes == a.on_notes,
        a@.notes_inner == a.notes_inner && a@.entry_rect == a.entry_rect,
        a@.log_rect == a.log_rect && a@.log_scroll == a.log_scroll,
        a@.notes_hidden == a.notes_hidden && a@.mine_only == a.mine_only && a@.quit == a.quit,
        act is Nothing ==> act@ == ActionView::Nothing,
        act matches Action::Send(c) ==> act@ == ActionView::Send(c@),
        act matches Action::Connect(n) ==> act@ == ActionView::Connect(n@),
        act matches Action::Copy(t) ==> act@ == ActionView::Copy(t@),
{
}

} // verus!
