//! What holds of every player's side of the game.

use crate::app::{command, edited, speaker_of, ActionView, AppView};
use crate::area::Rect;
use crate::frame::{
    command_in, composed, drawn, entry_view, footer_view, lit_lines, log_line, log_view, noted,
    presentable, shares, Panes, SceneView,
};
use crate::game::{PlayerView, StateView, UpdateView};
use crate::host::{called, HostView, TURN_LIMIT};
use crate::host_laws::{lemma_commands, lemma_phases};
use crate::input::{KeyCode, KeyEvent, MouseEventKind};
use crate::notes::NotesView;
use crate::notes_laws::{
    edits_keep_the_text_sound, lemma_without_selection_sound, moves_keep_the_text,
    the_mouse_keeps_the_text,
};
use crate::screen::{
    clock_view, filled, keys_view, play_lead, roster_view, seconds_left, status_view, wrapped,
    BAR_CELLS,
};
use crate::style::{banner, strong, tinted, LineView, SpanView, Style, ACCENT, DIM};
use crate::text::{
    begins, digits, lemma_one_line, lemma_trimmed_twice, occurs, text_lines, trimmed,
};
use vstd::prelude::*;

verus! {

impl AppView {
    /// Hidden notes do not have the focus.
    pub open spec fn focus_fits(self) -> bool {
        self.notes_hidden ==> !self.on_notes
    }

    /// Hidden notes are not on the screen.
    pub open spec fn pane_fits(self) -> bool {
        self.notes_hidden ==> self.notes_inner.width == 0
    }

    /// The line of entry is one line, nothing of it selected, both texts are sound, and the notes
    /// are not scrolled out of their pane.
    pub open spec fn sound(self) -> bool {
        &&& self.entry.lines.len() == 1
        &&& self.entry.anchor is None
        &&& self.entry.sound()
        &&& self.notes.sound()
        &&& 0 <= self.notes.scroll <= self.notes.lines.len()
    }
}

/// No key gives hidden notes the focus; hiding them takes it away.
pub proof fn keys_never_focus_hidden_notes(a: AppView, k: KeyEvent)
    requires
        a.focus_fits(),
    ensures
        a.keyed(k).0.focus_fits(),
{
}

/// No click gives notes the focus that are not on the screen.
pub proof fn the_mouse_never_focuses_hidden_notes(a: AppView, x: u16, y: u16, kind: MouseEventKind)
    requires
        a.focus_fits(),
        a.pane_fits(),
    ensures
        a.moused(x, y, kind).0.focus_fits(),
        a.moused(x, y, kind).0.pane_fits(),
{
}

/// Drawing takes hidden notes off the screen.
pub proof fn drawing_takes_hidden_notes_away(a: AppView, panes: Panes, status: Seq<LineView>)
    ensures
        noted(a, panes, status).pane_fits(),
        a.notes_hidden ==> composed(a, panes, Seq::empty(), status, Seq::empty()).notes is None,
{
}

/// Control and n, twice, shows the notes as before; control and g, twice, the log.
pub proof fn toggles_come_back(a: AppView)
    ensures
        ({
            let n = KeyEvent { code: KeyCode::Char('n'), ctrl: true };
            let g = KeyEvent { code: KeyCode::Char('g'), ctrl: true };
            &&& a.keyed(n).0.notes_hidden == !a.notes_hidden
            &&& a.keyed(n).0.keyed(n).0.notes_hidden == a.notes_hidden
            &&& a.keyed(g).0.keyed(g).0.mine_only == a.mine_only
        }),
{
}

/// Tab swaps the panes, whoever has the turn, and swaps them back.
pub proof fn tab_swaps_the_panes(a: AppView)
    requires
        !a.notes_hidden,
    ensures
        ({
            let t = KeyEvent { code: KeyCode::Tab, ctrl: false };
            &&& a.keyed(t).0.on_notes == !a.on_notes
            &&& a.keyed(t).0.keyed(t).0.on_notes == a.on_notes
        }),
{
}

/// The log never scrolls back past its oldest line, and always comes forward to its newest.
pub proof fn the_log_stays_within_its_history(a: AppView, n: int)
    requires
        n >= 0,
        a.log_scroll >= 0,
    ensures
        0 <= a.older(n).log_scroll <= a.older(n).max_log_scroll(),
        a.older(n).max_log_scroll() <= a.shown().len(),
        0 <= a.newer(n).log_scroll,
        n >= a.log_scroll ==> a.newer(n).log_scroll == 0,
{
    assert(a.older(n).shows() =~= a.shows());
}

/// A page forward undoes a page back that did not reach the oldest line.
pub proof fn a_page_forward_undoes_a_page_back(a: AppView)
    requires
        a.log_scroll >= 0,
        a.log_scroll + a.log_page() <= a.max_log_scroll(),
    ensures
        a.older(a.log_page()).newer(a.log_page()) == a,
{
}

/// Whatever was drawn before, a drawn log is scrolled back no further than its history.
pub proof fn drawing_keeps_the_log_within_its_history(
    a: AppView,
    panes: Panes,
    status: Seq<LineView>,
)
    requires
        a.log_scroll >= 0,
    ensures
        ({
            let b = noted(a, panes, status);
            0 <= b.log_scroll <= b.max_log_scroll()
        }),
{
    let b = noted(a, panes, status);
    let c = AppView { log_scroll: a.log_scroll, ..b };
    assert(b.shows() =~= c.shows());
}

/// A log that is not scrolled back ends with its newest line.
pub proof fn the_newest_line_is_shown(a: AppView)
    requires
        a.log_scroll == 0,
        a.log_rect.height > 0,
        a.shown().len() > 0,
    ensures
        log_view(a).len() > 0,
        log_view(a).last() == log_line(a, a.shown().last()),
{
}

/// The log is never drawn beyond its pane.
pub proof fn the_log_fits_its_pane(a: AppView)
    requires
        0 <= a.log_scroll <= a.shown().len(),
    ensures
        log_view(a).len() <= a.log_rect.height,
{
}

/// With only their own lines shown, a player sees no line that is about somebody else.
pub proof fn just_me_shows_only_mine(a: AppView, i: int)
    requires
        a.mine_only,
        0 <= i < a.shown().len(),
    ensures
        speaker_of(a.state.players, a.shown()[i]) == Some(a.you),
{
    a.state.log.lemma_filter_pred(a.shows(), i);
}

/// What is entered before it counts stays where it is, and nothing is sent.
pub proof fn an_early_guess_waits(a: AppView)
    requires
        !a.active(),
    ensures
        a.submitted().0.entry == a.entry,
        a.submitted().1 is Nothing,
{
}

/// Blank entries do nothing.
pub proof fn a_blank_entry_does_nothing(a: AppView)
    requires
        trimmed(a.entry.lines[0]).len() == 0,
    ensures
        a.submitted() == (a, ActionView::Nothing),
{
}

/// What is entered when it counts is sent, and leaves an empty line.
pub proof fn an_entry_that_counts_is_sent(a: AppView)
    requires
        a.active(),
        a.joined,
        a.entry.lines.len() > 0,
        trimmed(a.entry.lines[0]).len() > 0,
    ensures
        a.submitted().0.entry.lines[0].len() == 0,
        a.submitted().1 is Send,
{
}

/// There is nothing to type in the lobby: a key there changes nothing.
pub proof fn the_lobby_takes_no_input(a: AppView, code: KeyCode)
    requires
        a.joined,
        a.state.phase == "lobby"@,
    ensures
        a.entered(code) == (a, ActionView::Nothing),
        entry_view(a).spans.len() == 0,
{
}

/// What a player submits when it counts, the host of the same game accepts.
pub proof fn what_counts_is_accepted(a: AppView)
    requires
        a.joined,
        a.active(),
        a.you >= 0,
        a.state.phase == "assign"@ ==> a.target() is Some,
        trimmed(a.entry.lines[0]).len() > 0,
    ensures
        ({
            let c = command(
                if a.state.phase == "assign"@ {
                    "thing"@
                } else {
                    "guess"@
                },
                trimmed(a.entry.lines[0]),
            );
            a.submitted().1 == ActionView::Send(c) && a.state.accepts(a.you, c)
        }),
{
    lemma_commands();
    lemma_phases();
    lemma_trimmed_twice(a.entry.lines[0]);
}

/// A new round empties the line of entry; any other update leaves it.
pub proof fn only_a_new_round_clears_the_entry(a: AppView, us: Seq<UpdateView>)
    requires
        us.len() > 0,
    ensures
        a.new_round(us.last()) ==> a.drained(us).entry.lines == seq![Seq::<char>::empty()]
            && a.drained(us).entry.col == 0,
        !a.new_round(us.last()) ==> a.drained(us).entry == a.entry,
{
}

/// Only the last of the updates that came counts.
pub proof fn only_the_last_update_counts(a: AppView, us: Seq<UpdateView>)
    requires
        us.len() > 0,
    ensures
        a.drained(us) == a.drained(seq![us.last()]),
{
}

/// Who joins is told the game with themselves in it, under their name and in their place, and sees
/// it.
pub proof fn who_joins_sees_the_game(h: HostView, name: Seq<char>, a: AppView)
    requires
        h.state.players.len() <= usize::MAX,
    ensures
        ({
            let j = h.joined(name, true);
            let me = h.state.players.len();
            exists|i: int|
                h.outbox.len() <= i < j.outbox.len() && {
                    let b = a.drained(seq![#[trigger] j.outbox[i]]);
                    &&& b.joined
                    &&& b.state == j.state
                    &&& b.you == me
                    &&& b.state.players[b.you].name == called(trimmed(name), me)
                }
        }),
{
    let me = h.state.players.len() as usize;
    let j = h.joined(name, true);
    if !h.conns.contains(me) {
        assert(j.conns[h.conns.len() as int] == me);
    }
    assert(j.conns.contains(me));
    let k = choose|k: int| 0 <= k < j.conns.len() && j.conns[k] == me;
    assert(j.outbox[h.outbox.len() + k].you == me);
}

/// Everybody that is told the game sees the same one, each in their own place.
pub proof fn everybody_sees_the_same_game(h: HostView, a: AppView, i: int)
    requires
        0 <= i < h.conns.len(),
    ensures
        ({
            let b = a.drained(seq![h.told().outbox[h.outbox.len() + i]]);
            b.joined && b.state == h.state && b.you == h.conns[i]
        }),
{
}

proof fn lemma_edited_sound(n: NotesView, code: KeyCode)
    requires
        n.sound(),
        !(code is Backspace && n.strands_anchor()),
    ensures
        edited(n, code).sound(),
        edited(n, code).scroll == n.scroll,
{
    let m = NotesView { anchor: None, ..n };
    edits_keep_the_text_sound(n, match code {
        KeyCode::Char(c) => c,
        _ => ' ',
    });
    moves_keep_the_text(m);
}

/// In a sound player's side every key is allowed, and keeps it sound; but for a backspace in the
/// notes that would leave the anchor behind.
pub proof fn keys_keep_both_texts_sound(a: AppView, k: KeyEvent)
    requires
        a.sound(),
        !(a.on_notes && k.code is Backspace && a.notes.strands_anchor()),
    ensures
        a.fit_for(k),
        a.keyed(k).0.sound(),
{
    lemma_without_selection_sound(a.notes);
    lemma_without_selection_sound(a.entry);
    if a.on_notes {
        lemma_edited_sound(a.notes, k.code);
    } else {
        lemma_edited_sound(a.entry, k.code);
        if !(k.code is Enter) {
            lemma_entry_stays_one_line(a.entry, k.code);
        }
    }
}

proof fn lemma_entry_stays_one_line(n: NotesView, code: KeyCode)
    requires
        n.sound(),
        n.anchor is None,
        n.lines.len() == 1,
        !(code is Enter),
    ensures
        edited(n, code).lines.len() == 1,
        edited(n, code).anchor is None,
{
}

/// In a sound player's side the mouse may do anything, and keeps it sound.
pub proof fn the_mouse_keeps_both_texts_sound(a: AppView, x: u16, y: u16, kind: MouseEventKind)
    requires
        a.sound(),
    ensures
        a.fit_for_mouse(x, y, kind),
        a.moused(x, y, kind).0.sound(),
{
    the_mouse_keeps_the_text(a.notes, x, y, a.notes_inner);
}

/// Updates and drawing keep a sound player's side sound.
pub proof fn updates_and_drawing_keep_both_texts_sound(
    a: AppView,
    us: Seq<UpdateView>,
    panes: Panes,
    status: Seq<LineView>,
)
    requires
        a.sound(),
    ensures
        a.drained(us).sound(),
        noted(a, panes, status).sound(),
{
}

/// A sound player's side of a game that can be shown is drawn on any screen that leaves room in the
/// coordinates for the cursor and the four lines of status.
pub proof fn a_sound_side_can_be_drawn(
    a: AppView,
    screen: Rect,
    lan: Seq<char>,
    now: i64,
    panes: Panes,
    after: AppView,
    scene: Option<SceneView>,
)
    requires
        a.sound(),
        drawn(a, screen, lan, now, panes, after, scene),
        screen.right_edge() + 2 + (a.entry.col as u16) <= u16::MAX,
        screen.right_edge() + (a.notes.col as u16) <= u16::MAX,
        screen.bottom_edge() + 4 <= u16::MAX,
        a.focus_fits(),
    ensures
        scene is Some,
        after.sound(),
{
}

/// A game whose players are where it says can be shown to every player in it, unless they are too
/// many to count.
pub proof fn a_sound_game_can_be_shown(a: AppView)
    requires
        a.state.wf(),
        0 <= a.you < a.state.players.len(),
        a.state.players.len() < u16::MAX,
    ensures
        presentable(a),
{
}

/// Who has not joined is shown whatever their side holds of a game.
pub proof fn who_has_not_joined_is_asked_to(a: AppView)
    requires
        !a.joined,
        a.state.players.len() < u16::MAX,
    ensures
        presentable(a),
{
}

/// The bar of the clock has the same number of cells at any time.
pub proof fn the_clock_keeps_its_width(deadline: i64, now: i64)
    requires
        deadline != 0,
    ensures
        ({
            let left = seconds_left(deadline, now);
            &&& 0 <= filled(left) <= BAR_CELLS
            &&& clock_view(deadline, now).len() == 2
            &&& clock_view(deadline, now)[1].text.len() + filled(left) == BAR_CELLS
        }),
{
}

/// A whole turn fills the bar, no time left empties it, and it never fills up again as time passes.
pub proof fn the_clock_runs_down(deadline: i64, now: i64, later: i64)
    requires
        0 <= now <= later,
        0 <= deadline,
    ensures
        filled(TURN_LIMIT as int / 1000) == BAR_CELLS,
        later >= deadline ==> filled(seconds_left(deadline, later)) == 0,
        filled(seconds_left(deadline, later)) <= filled(seconds_left(deadline, now)),
        seconds_left(deadline, later) <= seconds_left(deadline, now),
{
    let less = seconds_left(deadline, later);
    let more = seconds_left(deadline, now);
    assert(less <= more);
    vstd::arithmetic::div_mod::lemma_div_is_ordered(
        less * BAR_CELLS,
        more * BAR_CELLS,
        TURN_LIMIT as int / 1000,
    );
}

/// Nobody learns their own thing from the list of players before they have guessed it.
pub proof fn the_roster_keeps_the_secret(a: AppView, thing: Seq<char>)
    requires
        0 <= a.you < a.state.players.len(),
        !a.state.players[a.you].done,
    ensures
        ({
            let p = PlayerView { thing, ..a.state.players[a.you] };
            let b = AppView {
                state: StateView { players: a.state.players.update(a.you, p), ..a.state },
                ..a
            };
            roster_view(b) == roster_view(a)
        }),
{
    let p = PlayerView { thing, ..a.state.players[a.you] };
    let b = AppView {
        state: StateView { players: a.state.players.update(a.you, p), ..a.state },
        ..a
    };
    assert(roster_view(b) =~= roster_view(a));
}

/// The key to quit is always explained.
pub proof fn the_quit_key_is_always_shown(a: AppView)
    ensures
        keys_view(a).contains("ctrl+q: quit"@),
{
    assert(keys_view(a).last() == "ctrl+q: quit"@);
}

/// An error takes the place of whatever else would stand below.
pub proof fn an_error_replaces_the_footer(a: AppView, b: AppView, most: int)
    requires
        a.err.len() > 0,
        a.err == b.err,
    ensures
        footer_view(a, most) == footer_view(b, most),
{
    assert(footer_view(a, most) =~= footer_view(b, most));
}

/// Every row that can be copied holds a command to join with.
pub proof fn only_commands_are_shared(lines: Seq<LineView>, y: u16, i: int)
    requires
        0 <= i < shares(lines, y).len(),
    ensures
        begins(shares(lines, y)[i].1, "headband "@),
    decreases lines.len(),
{
    if lines.len() > 0 {
        let rest = shares(lines.drop_last(), y);
        if i < rest.len() {
            only_commands_are_shared(lines.drop_last(), y, i);
        } else {
            lemma_command_in(lines.last().spans);
        }
    }
}

proof fn lemma_command_in(spans: Seq<SpanView>)
    ensures
        command_in(spans) matches Some(j) ==> 0 <= j < spans.len() && begins(
            spans[j].text,
            "headband "@,
        ),
    decreases spans.len(),
{
    if spans.len() > 0 {
        lemma_command_in(spans.drop_last());
    }
}

/// Text that does not begin with an h is no command to join with.
proof fn lemma_no_command(text: Seq<char>)
    requires
        text.len() == 0 || text[0] != 'h',
    ensures
        !begins(text, "headband "@),
{
    reveal_strlit("headband ");
    if begins(text, "headband "@) {
        assert(text.subrange(0, 9)[0] == 'h');
    }
}

proof fn lemma_no_command_in(spans: Seq<SpanView>)
    requires
        forall|i: int| 0 <= i < spans.len() ==> !begins((#[trigger] spans[i]).text, "headband "@),
    ensures
        command_in(spans) is None,
    decreases spans.len(),
{
    if spans.len() > 0 {
        lemma_no_command_in(spans.drop_last());
    }
}

proof fn lemma_no_shares(lines: Seq<LineView>, y: u16)
    requires
        forall|i: int| 0 <= i < lines.len() ==> command_in((#[trigger] lines[i]).spans) is None,
    ensures
        shares(lines, y).len() == 0,
    decreases lines.len(),
{
    if lines.len() > 0 {
        lemma_no_shares(lines.drop_last(), y);
    }
}

/// No line of `text` reads like a command to join with.
pub open spec fn quiet(text: Seq<char>) -> bool {
    forall|i: int|
        0 <= i < text_lines(text).len() ==> !begins(#[trigger] text_lines(text)[i], "headband "@)
}

/// What the status shows of names and things outside of the lobby reads nowhere like a command to
/// join with.
pub open spec fn status_quiet(a: AppView) -> bool {
    a.joined ==> if a.state.phase == "assign"@ {
        a.target() matches Some(p) ==> p.thing.len() == 0 ==> quiet(
            "You assign "@ + p.name + ". What are they?"@,
        )
    } else if a.state.phase == "play"@ {
        &&& a.state.turn != a.you ==> !begins(
            a.state.players[a.state.turn].name + " is asking."@,
            "headband "@,
        )
        &&& a.state.players[a.you].done ==> quiet(
            " YOU GOT IT: "@ + a.state.players[a.you].thing + " "@,
        )
    } else {
        quiet("Game over. You were: "@ + a.state.players[a.you].thing)
    }
}

/// One line that does not begin with an h is no command to join with.
proof fn lemma_quiet_line(text: Seq<char>)
    requires
        text.len() > 0,
        text[0] != 'h',
        forall|i: int| 0 <= i < text.len() ==> #[trigger] text[i] != '\n',
    ensures
        quiet(text),
{
    lemma_one_line(text);
    lemma_no_command(text);
}

proof fn lemma_quiet_spans(text: Seq<char>, style: Style)
    requires
        quiet(text),
    ensures
        command_in(LineView::of(text, style).spans) is None,
{
    let spans = LineView::of(text, style).spans;
    assert forall|i: int| 0 <= i < spans.len() implies !begins(
        (#[trigger] spans[i]).text,
        "headband "@,
    ) by {
        assert(spans[i].text == text_lines(text)[i]);
    }
    lemma_no_command_in(spans);
}

/// The texts of the status that hold no name and no thing.
proof fn lemma_quiet_words()
    ensures
        quiet("Type your name and hit enter."@),
        quiet("Sent. Waiting for everyone else."@),
        quiet("You assign "@ + ". What are they?"@),
        quiet("Hang around and watch the others suffer."@),
        quiet("ask your yes/no question, then type a guess, or ctrl+k to pass."@),
{
    reveal_strlit("Type your name and hit enter.");
    lemma_quiet_line("Type your name and hit enter."@);
    reveal_strlit("Sent. Waiting for everyone else.");
    lemma_quiet_line("Sent. Waiting for everyone else."@);
    reveal_strlit("You assign ");
    reveal_strlit(". What are they?");
    lemma_quiet_line("You assign "@ + ". What are they?"@);
    reveal_strlit("Hang around and watch the others suffer.");
    lemma_quiet_line("Hang around and watch the others suffer."@);
    reveal_strlit("ask your yes/no question, then type a guess, or ctrl+k to pass.");
    lemma_quiet_line("ask your yes/no question, then type a guess, or ctrl+k to pass."@);
}

proof fn lemma_digits(n: nat)
    ensures
        digits(n).len() > 0,
        '0' <= digits(n)[0] <= '9',
    decreases n,
{
    if n >= 10 {
        lemma_digits(n / 10);
    }
}

/// The line that says whose turn it is, with the clock, is no command to join with.
proof fn lemma_quiet_head(a: AppView, now: i64)
    requires
        a.state.turn != a.you ==> !begins(
            a.state.players[a.state.turn].name + " is asking."@,
            "headband "@,
        ),
    ensures
        command_in(play_lead(a) + clock_view(a.state.deadline, now)) is None,
{
    reveal_strlit("YOUR TURN");
    reveal_strlit("  ");
    let spans = play_lead(a) + clock_view(a.state.deadline, now);
    lemma_digits(seconds_left(a.state.deadline, now) as nat);
    lemma_no_command("YOUR TURN"@);
    lemma_no_command("  "@);
    assert forall|j: int| 0 <= j < spans.len() implies !begins(
        (#[trigger] spans[j]).text,
        "headband "@,
    ) by {
        if j >= 2 {
            lemma_no_command(spans[j].text);
        }
    }
    lemma_no_command_in(spans);
}

/// Outside of the lobby there is nothing to copy, unless a name or a thing that is shown reads, in
/// one of its lines, like a command to join with.
pub proof fn only_the_lobby_shares(a: AppView, lan: Seq<char>, now: i64, y: u16)
    requires
        !a.joined || a.state.phase != "lobby"@,
        status_quiet(a),
    ensures
        shares(status_view(a, lan, now), y).len() == 0,
{
    lemma_phases();
    lemma_quiet_words();
    let v = status_view(a, lan, now);
    if !a.joined {
        lemma_quiet_spans("Type your name and hit enter."@, strong(ACCENT));
    } else if a.state.phase == "assign"@ {
        lemma_quiet_spans("Sent. Waiting for everyone else."@, tinted(DIM));
        lemma_quiet_spans("You assign "@ + ". What are they?"@, strong(ACCENT));
        if let Some(p) = a.target() {
            if p.thing.len() == 0 {
                lemma_quiet_spans("You assign "@ + p.name + ". What are they?"@, strong(ACCENT));
            }
        }
    } else if a.state.phase == "play"@ {
        lemma_quiet_head(a, now);
        lemma_quiet_spans("Hang around and watch the others suffer."@, tinted(DIM));
        lemma_quiet_spans(
            "ask your yes/no question, then type a guess, or ctrl+k to pass."@,
            tinted(DIM),
        );
        if a.state.players[a.you].done {
            lemma_quiet_spans(" YOU GOT IT: "@ + a.state.players[a.you].thing + " "@, banner());
        }
    } else {
        lemma_quiet_spans("Game over. You were: "@ + a.state.players[a.you].thing, strong(ACCENT));
    }
    assert forall|i: int| 0 <= i < v.len() implies command_in((#[trigger] v[i]).spans) is None by {
    }
    lemma_no_shares(v, y);
}

/// The mouse lights the row that it is in and no other.
pub proof fn only_the_hovered_row_is_lit(
    lines: Seq<LineView>,
    y: u16,
    hover: Option<u16>,
    i: int,
)
    requires
        0 <= i < lines.len() <= u16::MAX,
        hover is None || hover->0 != y + i,
    ensures
        lit_lines(lines, y, hover)[i] == lines[i],
{
}

/// Lines are never cut inside an item: every item stands in a line in one piece.
pub proof fn wrapping_never_splits_an_item(
    items: Seq<Seq<char>>,
    sep: Seq<char>,
    width: int,
    i: int,
)
    requires
        0 <= i < items.len(),
    ensures
        exists|k: int|
            0 <= k < wrapped(items, sep, width).len() && occurs(
                items[i],
                #[trigger] wrapped(items, sep, width)[k],
            ),
    decreases items.len(),
{
    let init = items.drop_last();
    let before = wrapped(init, sep, width);
    let after = wrapped(items, sep, width);
    let item = items.last();
    lemma_wrapped_some(init, sep, width);
    if i == items.len() - 1 {
        let k = after.len() - 1;
        let line = after[k];
        let at = line.len() - item.len();
        assert(line.subrange(at, at + item.len()) =~= item);
        assert(occurs(item, line));
    } else {
        wrapping_never_splits_an_item(init, sep, width, i);
        let k = choose|k: int| 0 <= k < before.len() && occurs(items[i], #[trigger] before[k]);
        assert(init[i] == items[i]);
        if k < before.len() - 1 {
            assert(after[k] == before[k]);
        } else if before.last().len() == 0 {
            let line = after[k];
            assert(items[i].len() == 0);
            assert(line.subrange(0, 0) =~= items[i]);
            assert(line.subrange(0, 0int + items[i].len()) =~= items[i]);
            assert(occurs(items[i], line));
        } else {
            let old_line = before[k];
            let line = after[k];
            let at = choose|at: int|
                0 <= at <= old_line.len() - items[i].len() && #[trigger] old_line.subrange(
                    at,
                    at + items[i].len(),
                ) == items[i];
            assert(line.subrange(at, at + items[i].len()) =~= old_line.subrange(
                at,
                at + items[i].len(),
            ));
            assert(occurs(items[i], line));
        }
    }
}

proof fn lemma_wrapped_some(items: Seq<Seq<char>>, sep: Seq<char>, width: int)
    ensures
        wrapped(items, sep, width).len() > 0,
    decreases items.len(),
{
    if items.len() > 0 {
        lemma_wrapped_some(items.drop_last(), sep, width);
    }
}

/// A line is wider than it should be only where it is one item.
pub proof fn only_single_items_overflow(
    items: Seq<Seq<char>>,
    sep: Seq<char>,
    width: int,
    k: int,
)
    requires
        0 <= k < wrapped(items, sep, width).len(),
        wrapped(items, sep, width)[k].len() > width,
        width >= 0,
    ensures
        items.contains(wrapped(items, sep, width)[k]),
    decreases items.len(),
{
    if items.len() > 0 {
        let init = items.drop_last();
        let before = wrapped(init, sep, width);
        let after = wrapped(items, sep, width);
        lemma_wrapped_some(init, sep, width);
        if k < before.len() && after[k] == before[k] {
            only_single_items_overflow(init, sep, width, k);
            let m = choose|m: int| 0 <= m < init.len() && init[m] == before[k];
            assert(items[m] == after[k]);
        } else {
            assert(after[k] == items.last());
            assert(items[items.len() - 1] == after[k]);
        }
    }
}

/// `items` on one line.
pub open spec fn on_one_line(items: Seq<Seq<char>>, sep: Seq<char>) -> Seq<char>
    decreases items.len(),
{
    if items.len() == 0 {
        Seq::empty()
    } else if items.len() == 1 {
        items[0]
    } else {
        on_one_line(items.drop_last(), sep) + sep + items.last()
    }
}

/// What fits on one line is not wrapped.
pub proof fn nothing_is_wrapped_needlessly(items: Seq<Seq<char>>, sep: Seq<char>, width: int)
    requires
        on_one_line(items, sep).len() <= width,
        forall|i: int| 0 <= i < items.len() ==> (#[trigger] items[i]).len() > 0,
    ensures
        wrapped(items, sep, width) == seq![on_one_line(items, sep)],
    decreases items.len(),
{
    if items.len() > 0 {
        let init = items.drop_last();
        if init.len() > 0 {
            assert forall|i: int| 0 <= i < init.len() implies (#[trigger] init[i]).len() > 0 by {
                assert(items[i].len() > 0);
            }
            nothing_is_wrapped_needlessly(init, sep, width);
            lemma_one_line_some(init, sep);
            assert(wrapped(init, sep, width).last() == on_one_line(init, sep));
        } else {
            assert(wrapped(init, sep, width) == seq![Seq::<char>::empty()]);
            assert(wrapped(init, sep, width).last().len() == 0);
        }
        assert(items[items.len() - 1].len() > 0);
        assert(wrapped(items, sep, width) =~= seq![on_one_line(items, sep)]);
    }
}

proof fn lemma_one_line_some(items: Seq<Seq<char>>, sep: Seq<char>)
    requires
        items.len() > 0,
        forall|i: int| 0 <= i < items.len() ==> (#[trigger] items[i]).len() > 0,
    ensures
        on_one_line(items, sep).len() > 0,
{
    assert(items[items.len() - 1].len() > 0);
}

} // verus!
