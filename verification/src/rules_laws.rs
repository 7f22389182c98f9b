//! What each rule of the game does.

use crate::game::{Cmd, CmdView, Player, PlayerView, State, StateView, Update, UpdateView};
use crate::host::{
    answered, close, contenders, contends, counts, lemma_live, lemma_live_same, lists_live, live,
    other_than, reading, ring_of, Chance, ChanceView, Host, HostView, Next, NextView,
};
use crate::host_laws::{
    a_ring_is_a_derangement, a_ring_is_one_round, follow, lemma_commands, lemma_phases,
    the_turn_goes_to_the_next_contender,
};
use crate::text::{digits, lowercase, trimmed, white_space};
use crate::text_laws::{only_blank_texts_trim_to_nothing, what_occurs_stands_in_one_piece};
use vstd::prelude::*;

verus! {

/// The player has not left and has not got it.
pub open spec fn in_the_game(p: PlayerView) -> bool {
    !p.off && !p.done
}

/// Somebody has not left and has not got it.
pub open spec fn somebody_plays(players: Seq<PlayerView>) -> bool {
    exists|i: int| 0 <= i < players.len() && in_the_game(#[trigger] players[i])
}

/// Two have not left and have not got it.
pub open spec fn two_play(players: Seq<PlayerView>) -> bool {
    exists|i: int, j: int|
        0 <= i < j < players.len() && in_the_game(#[trigger] players[i]) && in_the_game(
            #[trigger] players[j],
        )
}

/// Two have not left.
pub open spec fn two_are_there(players: Seq<PlayerView>) -> bool {
    exists|i: int, j: int|
        0 <= i < j < players.len() && !(#[trigger] players[i]).off && !(#[trigger] players[j]).off
}

/// Everybody who has not left has a thing, and somebody has not left.
pub open spec fn all_have_things(players: Seq<PlayerView>) -> bool {
    &&& exists|i: int| 0 <= i < players.len() && !(#[trigger] players[i]).off
    &&& forall|i: int|
        0 <= i < players.len() && !(#[trigger] players[i]).off ==> players[i].thing.len() > 0
}

/// The last sixty lines.
pub open spec fn last_lines(all: Seq<Seq<char>>) -> Seq<Seq<char>> {
    if all.len() > 60 {
        all.skip(all.len() - 60)
    } else {
        all
    }
}

/// `u` is the first player past `t`, around the table, who has not left and has not got it.
pub open spec fn next_to_play(players: Seq<PlayerView>, t: int, u: int) -> bool {
    let n = players.len() as int;
    exists|k: int|
        {
            &&& 1 <= k <= n
            &&& u == #[trigger] ((t + k) % n)
            &&& in_the_game(players[u])
            &&& forall|i: int| 1 <= i < k ==> !in_the_game(players[#[trigger] ((t + i) % n)])
        }
}

/// The turn of player `t` is over: the next to play has it, on the clock if there is another; or
/// the game is over, and the clock stands.
pub open spec fn turn_over(r: StateView, t: int, now: i64, limit: u64) -> bool {
    if somebody_plays(r.players) {
        &&& r.phase == "play"@
        &&& 0 <= r.turn < r.players.len()
        &&& next_to_play(r.players, t, r.turn)
        &&& r.deadline == (if two_play(r.players) {
            now.wrapping_add_unsigned(limit)
        } else {
            0
        })
    } else {
        r.phase == "over"@ && r.deadline == 0 && r.turn == t
    }
}

/// The lines that go into the log when something is said and the turn passes.
pub open spec fn said(line: Seq<char>, r: StateView) -> Seq<Seq<char>> {
    if somebody_plays(r.players) {
        seq![line]
    } else {
        seq![line, "Everyone got it. GG."@]
    }
}

/// The players that have not left are listed in the order of their places, each once.
pub proof fn the_live_are_in_order(players: Seq<PlayerView>)
    ensures
        forall|i: int, j: int|
            0 <= i < j < live(players).len() ==> live(players)[i] < live(players)[j],
        forall|p: int| #[trigger]
            live(players).contains(p) <==> 0 <= p < players.len() && !players[p].off,
        live(players).len() >= 2 <==> two_are_there(players),
        live(players).len() >= 1 <==> exists|i: int|
            0 <= i < players.len() && !(#[trigger] players[i]).off,
    decreases players.len(),
{
    lemma_live(players);
    let l = live(players);
    if players.len() > 0 {
        let init = players.drop_last();
        the_live_are_in_order(init);
        lemma_live(init);
    }
    if l.len() >= 2 {
        assert(l.contains(l[0]) && l.contains(l[1]));
        assert(!players[l[0]].off && !players[l[1]].off);
    }
    if l.len() >= 1 {
        assert(l.contains(l[0]));
        assert(!players[l[0]].off);
    }
    if two_are_there(players) {
        let (i, j) = choose|i: int, j: int|
            0 <= i < j < players.len() && !(#[trigger] players[i]).off && !(
            #[trigger] players[j]).off;
        assert(l.contains(i) && l.contains(j));
        let a = choose|a: int| 0 <= a < l.len() && l[a] == i;
        let b = choose|b: int| 0 <= b < l.len() && l[b] == j;
        assert(a != b);
    }
    if exists|i: int| 0 <= i < players.len() && !(#[trigger] players[i]).off {
        let i = choose|i: int| 0 <= i < players.len() && !(#[trigger] players[i]).off;
        assert(l.contains(i));
    }
}

/// The players still in the game are counted: none, or one, or more.
pub proof fn contenders_are_counted(players: Seq<PlayerView>)
    ensures
        contenders(players) >= 1 <==> somebody_plays(players),
        contenders(players) > 1 <==> two_play(players),
        contenders(players) <= players.len(),
        forall|i: int| #![trigger players[i]] contends(players[i]) == in_the_game(players[i]),
    decreases players.len(),
{
    if players.len() > 0 {
        let init = players.drop_last();
        let n = players.len() - 1;
        contenders_are_counted(init);
        assert forall|i: int| 0 <= i < n implies #[trigger] init[i] == players[i] by {}
        if somebody_plays(init) {
            let i = choose|i: int| 0 <= i < init.len() && in_the_game(#[trigger] init[i]);
            assert(in_the_game(players[i]));
            if in_the_game(players[n]) {
                assert(two_play(players));
            }
        }
        if two_play(init) {
            let (i, j) = choose|i: int, j: int|
                0 <= i < j < init.len() && in_the_game(#[trigger] init[i]) && in_the_game(
                    #[trigger] init[j],
                );
            assert(in_the_game(players[i]) && in_the_game(players[j]));
        }
        if two_play(players) {
            let (i, j) = choose|i: int, j: int|
                0 <= i < j < players.len() && in_the_game(#[trigger] players[i]) && in_the_game(
                    #[trigger] players[j],
                );
            assert(in_the_game(init[i]));
            if j < n {
                assert(in_the_game(init[j]));
            }
        }
        if somebody_plays(players) {
            let i = choose|i: int| 0 <= i < players.len() && in_the_game(#[trigger] players[i]);
            if i < n {
                assert(in_the_game(init[i]));
            }
        }
    }
}

/// A hit of two different texts is one of more than three characters that stands in the other, a
/// longer one, in one piece.
pub proof fn a_hit_stands_in_the_other_in_one_piece(g: Seq<char>, t: Seq<char>)
    requires
        close(g, t),
        g != t,
    ensures
        g.len() < t.len() ==> 3 < g.len() && exists|i: int|
            0 <= i <= t.len() - g.len() && #[trigger] t.subrange(i, i + g.len()) == g,
        g.len() > t.len() ==> 3 < t.len() && exists|i: int|
            0 <= i <= g.len() - t.len() && #[trigger] g.subrange(i, i + t.len()) == t,
        g.len() != t.len(),
{
    assert(t.subrange(0, t.len() as int) =~= t);
    assert(g.subrange(0, g.len() as int) =~= g);
}

/// A text of more than three characters is a hit in whatever it stands in, and the other way round;
/// the same text is a hit; nothing is no hit.
pub proof fn what_stands_in_the_other_is_a_hit(a: Seq<char>, p: Seq<char>, b: Seq<char>)
    ensures
        p.len() > 3 ==> close(p, a + p + b) && close(a + p + b, p),
        p.len() > 0 ==> close(p, p),
        p.len() == 0 ==> !close(p, a) && !close(a, p),
{
    what_occurs_stands_in_one_piece(p, a, b, a);
}

/// The same of guesses and things, in lower case and without white space around them.
pub proof fn a_guess_that_counts_stands_in_the_thing(g: Seq<char>, t: Seq<char>)
    requires
        counts(g, t),
    ensures
        ({
            let x = lowercase(trimmed(g));
            let y = lowercase(trimmed(t));
            &&& x.len() > 0 && y.len() > 0
            &&& x.len() == y.len() ==> x == y
            &&& x.len() < y.len() ==> 3 < x.len() && exists|i: int|
                0 <= i <= y.len() - x.len() && #[trigger] y.subrange(i, i + x.len()) == x
            &&& x.len() > y.len() ==> 3 < y.len() && exists|i: int|
                0 <= i <= x.len() - y.len() && #[trigger] x.subrange(i, i + y.len()) == y
        }),
{
    let x = lowercase(trimmed(g));
    let y = lowercase(trimmed(t));
    if x != y {
        a_hit_stands_in_the_other_in_one_piece(x, y);
    }
}

/// A guess counts if, in lower case and without white space around them, it is the thing, or one of
/// them has more than three characters and stands in the other.
pub proof fn a_guess_that_stands_in_the_thing_counts(
    g: Seq<char>,
    t: Seq<char>,
    a: Seq<char>,
    b: Seq<char>,
)
    requires
        lowercase(trimmed(g)).len() > 0,
    ensures
        lowercase(trimmed(t)) == lowercase(trimmed(g)) ==> counts(g, t),
        lowercase(trimmed(g)).len() > 3 && lowercase(trimmed(t)) == a + lowercase(trimmed(g)) + b
            ==> counts(g, t) && counts(t, g),
{
    what_stands_in_the_other_is_a_hit(a, lowercase(trimmed(g)), b);
}

/// The log keeps its last sixty lines, the new one last.
pub proof fn the_log_keeps_its_last_lines(s: StateView, line: Seq<char>)
    ensures
        s.logged(line) == (StateView { log: last_lines(s.log.push(line)), ..s }),
{
}

/// Two lines one after the other.
proof fn lemma_two_lines(log: Seq<Seq<char>>, a: Seq<char>, b: Seq<char>)
    ensures
        last_lines(last_lines(log.push(a)).push(b)) == last_lines(log + seq![a, b]),
        last_lines(log.push(a)) == last_lines(log + seq![a]),
{
    assert(log.push(a) =~= log + seq![a]);
    assert(last_lines(last_lines(log.push(a)).push(b)) =~= last_lines(log + seq![a, b]));
}

/// Passing a turn on, after `line` went into the log.
proof fn lemma_turn_over(s: StateView, line: Seq<char>, now: i64, limit: u64)
    requires
        s.phase == "play"@,
        s.turn >= 0,
    ensures
        ({
            let r = s.logged(line).passed(now, limit);
            &&& r.players == s.players
            &&& r.assigns == s.assigns
            &&& turn_over(r, s.turn, now, limit)
            &&& r.log == last_lines(s.log + said(line, r))
        }),
{
    lemma_phases();
    let q = s.logged(line);
    let r = q.passed(now, limit);
    contenders_are_counted(s.players);
    lemma_two_lines(s.log, line, "Everyone got it. GG."@);
    if somebody_plays(s.players) {
        let w = choose|i: int| 0 <= i < s.players.len() && in_the_game(#[trigger] s.players[i]);
        assert(contends(q.players[w]));
        the_turn_goes_to_the_next_contender(q, now, limit);
        let n = s.players.len() as int;
        let k = choose|k: int|
            1 <= k <= n && r.turn == #[trigger] ((q.turn + k) % n) && forall|i: int|
                1 <= i < k ==> !contends(q.players[#[trigger] ((q.turn + i) % n)]);
        assert(r.turn == (s.turn + k) % n);
        assert(in_the_game(s.players[r.turn]));
        assert forall|i: int| 1 <= i < k implies !in_the_game(
            s.players[#[trigger] ((s.turn + i) % n)],
        ) by {
            assert(!contends(q.players[(q.turn + i) % n]));
        }
        assert(next_to_play(s.players, s.turn, r.turn));
    } else {
        assert(!q.goes_on());
    }
}

/// Passing the turn on, in any phase: to the next to play, on the clock if there is another; or,
/// with nobody left to play, the game is over. Nobody is touched.
pub proof fn the_turn_is_passed_on(s: StateView, now: i64, limit: u64)
    requires
        s.turn >= 0,
    ensures
        ({
            let r = s.passed(now, limit);
            &&& r.players == s.players && r.assigns == s.assigns
            &&& somebody_plays(s.players) ==> {
                &&& r.phase == s.phase && r.log == s.log
                &&& 0 <= r.turn < s.players.len()
                &&& next_to_play(s.players, s.turn, r.turn)
                &&& r.deadline == (if two_play(s.players) {
                    now.wrapping_add_unsigned(limit)
                } else {
                    0
                })
            }
            &&& !somebody_plays(s.players) ==> {
                &&& r.phase == "over"@ && r.deadline == 0 && r.turn == s.turn
                &&& r.log == last_lines(s.log.push("Everyone got it. GG."@))
            }
        }),
{
    contenders_are_counted(s.players);
    let r = s.passed(now, limit);
    if somebody_plays(s.players) {
        let w = choose|i: int| 0 <= i < s.players.len() && in_the_game(#[trigger] s.players[i]);
        assert(contends(s.players[w]));
        the_turn_goes_to_the_next_contender(s, now, limit);
        let n = s.players.len() as int;
        let k = choose|k: int|
            1 <= k <= n && r.turn == #[trigger] ((s.turn + k) % n) && forall|i: int|
                1 <= i < k ==> !contends(s.players[#[trigger] ((s.turn + i) % n)]);
        assert(in_the_game(s.players[r.turn]));
        assert forall|i: int| 1 <= i < k implies !in_the_game(
            s.players[#[trigger] ((s.turn + i) % n)],
        ) by {
            assert(!contends(s.players[(s.turn + i) % n]));
        }
        assert(next_to_play(s.players, s.turn, r.turn));
    } else {
        assert(!s.goes_on());
    }
}

/// A guess, a hit or not, is said, marks the guesser if it is a hit, and passes the turn on.
pub proof fn a_guess_is_said_and_passes_the_turn_on(
    s: StateView,
    me: int,
    text: Seq<char>,
    hit: bool,
    now: i64,
    limit: u64,
)
    requires
        0 <= me < s.players.len(),
    ensures
        ({
            let p = s.players[me];
            let line = if hit {
                p.name + " got it: "@ + p.thing + " ✓"@
            } else {
                p.name + " guessed \""@ + text + "\" — nope."@
            };
            let q = PlayerView { name: p.name, thing: p.thing, done: p.done || hit, off: p.off };
            s.guessed(me, text, hit, now, limit) == (StateView {
                players: s.players.update(me, q),
                log: last_lines(s.log.push(line)),
                ..s
            }).passed(now, limit)
        }),
{
    let p = s.players[me];
    assert(s.players.update(me, p) =~= s.players);
}

/// A draw cleans the board, stops the clock and, among two or more, draws a ring; who is not in it
/// has nobody.
pub proof fn a_draw_draws_a_ring(s: StateView, why: Seq<char>, order: Seq<int>)
    requires
        lists_live(order, s.players),
        s.players.len() <= i32::MAX,
    ensures
        ({
            let r = s.redrawn(why, order);
            &&& r.phase == "assign"@ && r.turn == s.turn && r.deadline == 0
            &&& clean_board(s.players, r.players)
            &&& r.log == last_lines(s.log.push(why))
            &&& two_are_there(s.players) ==> drawn_in_a_ring(r.players, r.assigns)
            &&& r.assigns.len() == s.players.len()
            &&& forall|p: int|
                0 <= p < s.players.len() && !present(s.players, p) ==> #[trigger] r.assigns[p] == -1
        }),
{
    let r = s.redrawn(why, order);
    if two_are_there(s.players) {
        lemma_drawn_in_a_ring(s.players, order);
        lemma_ring_after_cleaning(s.players, r.players, r.assigns);
    }
    assert forall|p: int| 0 <= p < s.players.len() && !present(
        s.players,
        p,
    ) implies #[trigger] r.assigns[p] == -1 by {
        assert(!order.contains(p));
    }
}

/// Play begins exactly where everybody there has a thing.
pub proof fn play_begins_where_all_have_things(s: StateView, pick: int, now: i64, limit: u64)
    requires
        0 <= pick,
        live(s.players).len() > 0 ==> pick < live(s.players).len(),
    ensures
        begun_if_ready(s, s.started(pick, now, limit), pick, now, limit),
{
    lemma_begun(s, pick, now, limit);
}

/// Who may do what, and when: player 0 starts from the lobby and restarts from anywhere else, with
/// two players there; while things are named, who has somebody to name one for may name one that is
/// not blank; while the game is on, who has the turn may guess or pass. Nothing else is ever done.
pub proof fn who_may_do_what(s: StateView, me: int, c: CmdView)
    requires
        me >= 0,
    ensures
        c.cmd == "start"@ ==> (s.accepts(me, c) <==> me == 0 && s.phase == "lobby"@
            && two_are_there(s.players)),
        c.cmd == "restart"@ ==> (s.accepts(me, c) <==> me == 0 && s.phase != "lobby"@
            && two_are_there(s.players)),
        c.cmd == "thing"@ ==> (s.accepts(me, c) <==> {
            &&& s.phase == "assign"@
            &&& me < s.assigns.len()
            &&& s.assigns[me] >= 0
            &&& exists|i: int| 0 <= i < c.text.len() && !white_space(#[trigger] c.text[i])
        }),
        c.cmd == "guess"@ || c.cmd == "skip"@ ==> (s.accepts(me, c) <==> s.phase == "play"@ && me
            == s.turn),
        s.accepts(me, c) ==> c.cmd == "start"@ || c.cmd == "restart"@ || c.cmd == "thing"@ || c.cmd
            == "guess"@ || c.cmd == "skip"@,
{
    lemma_commands();
    the_live_are_in_order(s.players);
    only_blank_texts_trim_to_nothing(c.text);
}

/// Two lists of the players that have not left are of one length.
proof fn lemma_order_len(order: Seq<int>, players: Seq<PlayerView>)
    requires
        lists_live(order, players),
    ensures
        order.len() == live(players).len(),
{
    lemma_live(players);
    let l = live(players);
    order.unique_seq_to_set();
    l.unique_seq_to_set();
    assert(order.to_set() =~= l.to_set()) by {
        assert forall|p: int| order.to_set().contains(p) == l.to_set().contains(p) by {
            assert(order.contains(p) == l.contains(p));
        }
    }
}

/// There is such a player, and they have not left.
pub open spec fn present(players: Seq<PlayerView>, p: int) -> bool {
    0 <= p < players.len() && !players[p].off
}

/// Player `p`, if they are there, draws another one that is there.
pub open spec fn draws_another(players: Seq<PlayerView>, a: Seq<i32>, p: int) -> bool {
    present(players, p) ==> a[p] != p && present(players, a[p] as int)
}

/// Player `q`, if they are there, is drawn by one that is there.
pub open spec fn is_drawn(players: Seq<PlayerView>, a: Seq<i32>, q: int) -> bool {
    present(players, q) ==> exists|p: int| present(players, p) && #[trigger] a[p] == q
}

/// Each player that has not left names a thing for another one of them, each is named one by
/// exactly one, and who has left by nobody and for nobody; and it is one ring.
pub open spec fn drawn_in_a_ring(players: Seq<PlayerView>, a: Seq<i32>) -> bool {
    &&& a.len() == players.len()
    &&& forall|p: int| #[trigger] draws_another(players, a, p)
    &&& forall|q: int| #[trigger] is_drawn(players, a, q)
    &&& forall|p: int, q: int| #[trigger]
        present(players, p) && #[trigger] present(players, q) && a[p] == a[q] ==> p == q
    &&& forall|p: int|
        0 <= p < players.len() && !present(players, p) ==> #[trigger] a[p] == -1
    &&& forall|p: int, q: int| #[trigger]
        present(players, p) && #[trigger] present(players, q) ==> exists|k: nat| #[trigger]
            follow(a, p, k) == q
}

proof fn lemma_drawn_in_a_ring(players: Seq<PlayerView>, order: Seq<int>)
    requires
        lists_live(order, players),
        two_are_there(players),
        players.len() <= i32::MAX,
    ensures
        drawn_in_a_ring(players, ring_of(players.len(), order)),
{
    let a = ring_of(players.len(), order);
    the_live_are_in_order(players);
    lemma_order_len(order, players);
    assert forall|p: int| #[trigger] draws_another(players, a, p) by {
        a_ring_is_a_derangement(players, order);
    }
    assert forall|q: int| #[trigger] is_drawn(players, a, q) by {
        a_ring_is_a_derangement(players, order);
        if present(players, q) {
            let p = choose|p: int| 0 <= p < players.len() && #[trigger] a[p] == q;
            assert(players[p].off ==> a[p] == -1);
            assert(present(players, p));
        }
    }
    assert forall|p: int, q: int| #[trigger]
        present(players, p) && #[trigger] present(players, q) && a[p] == a[q] implies p == q by {
        a_ring_is_a_derangement(players, order);
    }
    assert forall|p: int| 0 <= p < players.len() && !present(players, p) implies #[trigger] a[p]
        == -1 by {
        a_ring_is_a_derangement(players, order);
        assert(players[p].off);
    }
    assert forall|p: int, q: int| #[trigger]
        present(players, p) && #[trigger] present(players, q) implies exists|k: nat| #[trigger]
        follow(a, p, k) == q by {
        a_ring_is_one_round(players, order, p);
        assert(!players[q].off);
        let k = choose|k: nat| k < order.len() && #[trigger] follow(a, p, k) == q;
        assert(follow(a, p, k) == q);
    }
}

/// The board is clean: nobody has a thing, nobody has got it, and everybody is in their place,
/// under their name, gone if they were.
pub open spec fn clean_board(before: Seq<PlayerView>, after: Seq<PlayerView>) -> bool {
    &&& after.len() == before.len()
    &&& forall|i: int|
        0 <= i < after.len() ==> #[trigger] after[i] == (PlayerView {
            name: before[i].name,
            thing: Seq::empty(),
            done: false,
            off: before[i].off,
        })
}

proof fn lemma_ring_after_cleaning(before: Seq<PlayerView>, after: Seq<PlayerView>, a: Seq<i32>)
    requires
        clean_board(before, after),
        drawn_in_a_ring(before, a),
    ensures
        drawn_in_a_ring(after, a),
{
    assert forall|i: int| #[trigger] present(after, i) == present(before, i) by {
        if 0 <= i < before.len() {
            assert(after[i].off == before[i].off);
        }
    }
    assert forall|p: int| #[trigger] draws_another(after, a, p) by {
        assert(draws_another(before, a, p));
        assert(present(after, p) == present(before, p));
        assert(present(after, a[p] as int) == present(before, a[p] as int));
    }
    assert forall|q: int| #[trigger] is_drawn(after, a, q) by {
        assert(is_drawn(before, a, q));
        if present(after, q) {
            assert(present(before, q));
            let p = choose|p: int| present(before, p) && #[trigger] a[p] == q;
            assert(present(after, p));
        }
    }
    assert forall|p: int, q: int| #[trigger]
        present(after, p) && #[trigger] present(after, q) && a[p] == a[q] implies p == q by {
        assert(present(before, p) && present(before, q));
    }
    assert forall|p: int, q: int| #[trigger]
        present(after, p) && #[trigger] present(after, q) implies exists|k: nat| #[trigger]
        follow(a, p, k) == q by {
        assert(present(before, p) && present(before, q));
    }
}

/// Starting and restarting clean the board, stop the clock, and draw, in one ring, whom each player
/// there names a thing for; a restart forgets the log, a start does not.
pub proof fn a_start_or_restart_draws_a_ring(
    s: StateView,
    me: int,
    c: CmdView,
    by: ChanceView,
    limit: u64,
)
    requires
        me >= 0,
        s.accepts(me, c),
        c.cmd == "start"@ || c.cmd == "restart"@,
        by.fits(s.players),
        s.players.len() <= i32::MAX,
    ensures
        ({
            let r = s.applied(me, c, by, limit);
            &&& r.phase == "assign"@
            &&& r.turn == s.turn
            &&& r.deadline == 0
            &&& clean_board(s.players, r.players)
            &&& drawn_in_a_ring(r.players, r.assigns)
            &&& c.cmd == "start"@ ==> r.log == last_lines(
                s.log.push("Assign phase — everyone name the thing for their target."@),
            )
            &&& c.cmd == "restart"@ ==> r.log == seq!["New round — assign again."@]
        }),
{
    lemma_commands();
    who_may_do_what(s, me, c);
    let r = s.applied(me, c, by, limit);
    lemma_drawn_in_a_ring(s.players, by.order);
    assert(r.assigns == ring_of(s.players.len(), by.order));
    lemma_ring_after_cleaning(s.players, r.players, r.assigns);
    if c.cmd == "restart"@ {
        assert(r.log =~= seq!["New round — assign again."@]);
    }
}

/// Play begins with the player that chance picks among those there, on the clock if there is
/// another to play; nothing of the players or the draw changes. Otherwise nothing changes at all.
pub open spec fn begun_if_ready(
    s: StateView,
    r: StateView,
    pick: int,
    now: i64,
    limit: u64,
) -> bool {
    if all_have_things(s.players) {
        &&& r.phase == "play"@
        &&& 0 <= r.turn < s.players.len()
        &&& r.turn == live(s.players)[pick]
        &&& !s.players[r.turn].off
        &&& r.deadline == (if two_play(s.players) {
            now.wrapping_add_unsigned(limit)
        } else {
            0
        })
        &&& r.players == s.players
        &&& r.assigns == s.assigns
        &&& r.log == last_lines(
            s.log.push("Game on. "@ + s.players[r.turn].name + " goes first."@),
        )
    } else {
        r == s
    }
}

proof fn lemma_begun(s: StateView, pick: int, now: i64, limit: u64)
    requires
        0 <= pick,
        live(s.players).len() > 0 ==> pick < live(s.players).len(),
    ensures
        begun_if_ready(s, s.started(pick, now, limit), pick, now, limit),
{
    the_live_are_in_order(s.players);
    contenders_are_counted(s.players);
    if all_have_things(s.players) {
        let i = choose|i: int| 0 <= i < s.players.len() && !(#[trigger] s.players[i]).off;
        assert(live(s.players).contains(i));
        let l = live(s.players);
        assert(l.contains(l[pick]));
        assert(s.ready());
    } else {
        if s.ready() {
            let l = live(s.players);
            assert(l.contains(l[0]));
            assert(!s.players[l[0]].off);
        }
    }
}

/// A thing goes, as it was given, to the player whom the giver drew, and to nobody else; play
/// begins as soon as everybody there has one.
pub proof fn naming_a_thing_gives_it_to_the_target(
    s: StateView,
    me: int,
    c: CmdView,
    by: ChanceView,
    limit: u64,
)
    requires
        me >= 0,
        s.accepts(me, c),
        c.cmd == "thing"@,
        s.assigns[me] < s.players.len(),
        by.fits(s.players),
    ensures
        ({
            let who = s.assigns[me] as int;
            let p = s.players[who];
            let given = StateView {
                players: s.players.update(
                    who,
                    PlayerView { name: p.name, thing: c.text, done: p.done, off: p.off },
                ),
                ..s
            };
            begun_if_ready(given, s.applied(me, c, by, limit), by.pick, by.now, limit)
        }),
{
    lemma_commands();
    let who = s.assigns[me] as int;
    let given = s.named(who, c.text);
    lemma_live_same(s.players, given.players);
    lemma_begun(given, by.pick, by.now, limit);
}

/// Passing is said and passes the turn; nobody is touched.
pub proof fn passing_passes_the_turn(
    s: StateView,
    me: int,
    c: CmdView,
    by: ChanceView,
    limit: u64,
)
    requires
        s.phase == "play"@,
        me == s.turn,
        0 <= me < s.players.len(),
        c.cmd == "skip"@,
    ensures
        ({
            let r = s.applied(me, c, by, limit);
            &&& r.players == s.players
            &&& r.assigns == s.assigns
            &&& turn_over(r, me, by.now, limit)
            &&& r.log == last_lines(s.log + said(s.players[me].name + " passed."@, r))
        }),
{
    lemma_commands();
    lemma_turn_over(s, s.players[me].name + " passed."@, by.now, limit);
}

/// A guess that counts says so, with the thing, and the guesser has got it; one that does not says
/// what was guessed, and nobody is touched. Either way the turn passes.
pub proof fn a_guess_is_judged_and_passes_the_turn(
    s: StateView,
    me: int,
    c: CmdView,
    by: ChanceView,
    limit: u64,
)
    requires
        s.phase == "play"@,
        me == s.turn,
        0 <= me < s.players.len(),
        c.cmd == "guess"@,
    ensures
        ({
            let r = s.applied(me, c, by, limit);
            let p = s.players[me];
            &&& r.assigns == s.assigns
            &&& turn_over(r, me, by.now, limit)
            &&& counts(c.text, p.thing) ==> {
                &&& r.players == s.players.update(
                    me,
                    PlayerView { name: p.name, thing: p.thing, done: true, off: p.off },
                )
                &&& r.log == last_lines(s.log + said(p.name + " got it: "@ + p.thing + " ✓"@, r))
            }
            &&& !counts(c.text, p.thing) ==> {
                &&& r.players == s.players
                &&& r.log == last_lines(
                    s.log + said(p.name + " guessed \""@ + c.text + "\" — nope."@, r),
                )
            }
        }),
{
    lemma_commands();
    let p = s.players[me];
    if counts(c.text, p.thing) {
        let q = StateView {
            players: s.players.update(me, PlayerView { done: true, ..p }),
            ..s
        };
        lemma_turn_over(q, p.name + " got it: "@ + p.thing + " ✓"@, by.now, limit);
    } else {
        lemma_turn_over(s, p.name + " guessed \""@ + c.text + "\" — nope."@, by.now, limit);
    }
}

/// Everybody but player `me` is as they were, and `me` is gone.
pub open spec fn without(players: Seq<PlayerView>, me: int) -> Seq<PlayerView> {
    let p = players[me];
    players.update(me, PlayerView { name: p.name, thing: p.thing, done: p.done, off: true })
}

/// Who leaves outside of their turn, and not while things are named, is gone, and nothing else
/// changes; in their turn the turn passes as well.
pub proof fn leaving_passes_the_turn(s: StateView, me: int, by: ChanceView, limit: u64)
    requires
        0 <= me < s.players.len(),
        s.turn >= 0,
        s.phase != "assign"@,
    ensures
        ({
            let r = s.left(me, by, limit);
            let line = s.players[me].name + " dropped."@;
            &&& r.players == without(s.players, me)
            &&& r.assigns == s.assigns
            &&& s.phase == "play"@ && s.turn == me ==> {
                &&& turn_over(r, me, by.now, limit)
                &&& r.log == last_lines(s.log + said(line, r))
            }
            &&& s.phase != "play"@ || s.turn != me ==> {
                &&& r.phase == s.phase
                &&& r.turn == s.turn
                &&& r.deadline == s.deadline
                &&& r.log == last_lines(s.log.push(line))
            }
        }),
{
    lemma_phases();
    let line = s.players[me].name + " dropped."@;
    let q = StateView {
        players: s.players.update(me, PlayerView { off: true, ..s.players[me] }),
        ..s
    };
    if s.phase == "play"@ && s.turn == me {
        lemma_turn_over(q, line, by.now, limit);
    }
}

/// Who leaves while things are named, having named theirs or having none to name, is gone, and play
/// begins if that was all that it waited for.
pub proof fn leaving_after_naming_lets_the_rest_play(
    s: StateView,
    me: int,
    by: ChanceView,
    limit: u64,
)
    requires
        0 <= me < s.players.len(),
        s.phase == "assign"@,
        by.fits(without(s.players, me)),
        me < s.assigns.len() && s.assigns[me] >= 0 ==> s.assigns[me] < s.players.len()
            && s.players[s.assigns[me] as int].thing.len() > 0,
    ensures
        ({
            let gone = StateView {
                players: without(s.players, me),
                log: last_lines(s.log.push(s.players[me].name + " dropped."@)),
                ..s
            };
            begun_if_ready(gone, s.left(me, by, limit), by.pick, by.now, limit)
        }),
{
    lemma_phases();
    let gone = StateView {
        players: without(s.players, me),
        log: last_lines(s.log.push(s.players[me].name + " dropped."@)),
        ..s
    };
    assert(s.dropped(me) == gone);
    assert(!gone.owes(me));
    lemma_begun(gone, by.pick, by.now, limit);
}

/// Who leaves before naming the thing that they owe leaves a clean board and a new draw: a ring of
/// those that are left, if they are two.
pub proof fn leaving_before_naming_draws_a_new_ring(
    s: StateView,
    me: int,
    by: ChanceView,
    limit: u64,
)
    requires
        0 <= me < s.players.len(),
        s.phase == "assign"@,
        by.fits(without(s.players, me)),
        me < s.assigns.len(),
        0 <= s.assigns[me] < s.players.len(),
        s.players[s.assigns[me] as int].thing.len() == 0,
        s.players.len() <= i32::MAX,
    ensures
        ({
            let r = s.left(me, by, limit);
            let line = s.players[me].name + " dropped."@;
            &&& r.phase == "assign"@
            &&& r.turn == s.turn
            &&& r.deadline == 0
            &&& clean_board(without(s.players, me), r.players)
            &&& two_are_there(r.players) ==> drawn_in_a_ring(r.players, r.assigns)
            &&& r.log == last_lines(
                s.log + seq![line, "Redrawing — they left before assigning."@],
            )
        }),
{
    lemma_phases();
    let line = s.players[me].name + " dropped."@;
    let why = "Redrawing — they left before assigning."@;
    let gone = without(s.players, me);
    let d = s.dropped(me);
    assert(d.players == gone);
    assert(d.owes(me));
    let q = d.redrawn(why, by.order);
    lemma_live_same(d.players, q.players);
    lemma_begun(q, by.pick, by.now, limit);
    assert(!all_have_things(q.players)) by {
        if all_have_things(q.players) {
            let i = choose|i: int| 0 <= i < q.players.len() && !(#[trigger] q.players[i]).off;
            assert(q.players[i].thing.len() == 0);
        }
    }
    let r = s.left(me, by, limit);
    assert(r == q);
    lemma_two_lines(s.log, line, why);
    assert(clean_board(gone, r.players));
    if two_are_there(r.players) {
        let (i, j) = choose|i: int, j: int|
            0 <= i < j < r.players.len() && !(#[trigger] r.players[i]).off && !(
            #[trigger] r.players[j]).off;
        assert(!gone[i].off && !gone[j].off);
        lemma_drawn_in_a_ring(gone, by.order);
        lemma_ring_after_cleaning(gone, r.players, r.assigns);
    }
}

/// The clock acts exactly on a turn that has an end which has come: it is said, the turn passes,
/// and nobody is touched. Else nothing changes and nobody is told.
pub proof fn the_clock_ends_a_turn_when_its_time_is_up(h: HostView, now: i64, later: i64)
    requires
        h.state.turn >= 0,
    ensures
        ({
            let s = h.state;
            let r = h.ticked(now, later);
            &&& s.phase != "play"@ || s.deadline == 0 || now < s.deadline ==> r == h
            &&& s.phase == "play"@ && s.deadline != 0 && now >= s.deadline ==> {
                let line = s.players[s.turn].name + " ran out of time."@;
                &&& r.state.players == s.players
                &&& r.state.assigns == s.assigns
                &&& turn_over(r.state, s.turn, later, h.limit)
                &&& r.state.log == last_lines(s.log + said(line, r.state))
                &&& r.conns == h.conns
                &&& r.limit == h.limit
                &&& told_to_all(h, r)
            }
        }),
{
    let s = h.state;
    lemma_phases();
    if s.phase == "play"@ {
        lemma_turn_over(s, s.players[s.turn].name + " ran out of time."@, later, h.limit);
    }
}

/// Since `h`, the game as it is in `r` went to each player that `r` can reach, with their own
/// place.
pub open spec fn told_to_all(h: HostView, r: HostView) -> bool {
    &&& r.outbox.len() == h.outbox.len() + r.conns.len()
    &&& forall|i: int| 0 <= i < h.outbox.len() ==> #[trigger] r.outbox[i] == h.outbox[i]
    &&& forall|i: int|
        0 <= i < r.conns.len() ==> #[trigger] r.outbox[h.outbox.len() + i] == (UpdateView {
            state: r.state,
            you: r.conns[i] as int,
        })
}

/// Telling the game changes nothing and tells everybody.
pub proof fn everybody_is_told(h: HostView)
    ensures
        h.told() == (HostView { outbox: h.told().outbox, ..h }),
        told_to_all(h, h.told()),
{
}

/// What has been taken to be sent is not sent again: the next to be sent is what is told from then
/// on. The game and who can be reached stay the same.
pub proof fn nothing_is_sent_twice(h: HostView)
    ensures
        h.emptied().state == h.state,
        h.emptied().conns == h.conns,
        h.emptied().limit == h.limit,
        h.emptied().outbox.len() == 0,
        h.outbox + h.emptied().told().outbox == h.told().outbox,
{
    assert(h.outbox + h.emptied().told().outbox =~= h.told().outbox);
}

/// What is done is told to everybody; what is refused to nobody. Who can be reached stays the same.
pub proof fn what_is_done_is_told(h: HostView, me: int, c: CmdView, by: ChanceView)
    ensures
        ({
            let r = h.applied(me, c, by);
            &&& r.conns == h.conns && r.limit == h.limit
            &&& h.state.accepts(me, c) ==> {
                &&& r.state == h.state.applied(me, c, by, h.limit)
                &&& told_to_all(h, r)
            }
            &&& !h.state.accepts(me, c) ==> r == h
        }),
{
}

/// Who joins has the next place and the name that they gave, without white space around it and cut
/// to sixteen characters, or that of their place; they have no thing yet. Nothing else of the game
/// changes, everybody can still be reached, the new player too if they are connected, and everybody
/// is told.
pub proof fn who_joins_takes_the_next_place(h: HostView, name: Seq<char>, conn: bool)
    requires
        h.state.players.len() < usize::MAX,
    ensures
        ({
            let r = h.joined(name, conn);
            let me = h.state.players.len();
            &&& r.state == StateView { players: r.state.players, ..h.state }
            &&& r.state.players.len() == me + 1
            &&& forall|i: int|
                0 <= i < me ==> #[trigger] r.state.players[i] == h.state.players[i]
            &&& r.state.players[me as int] == (PlayerView {
                name: if trimmed(name).len() == 0 {
                    "player"@ + digits(me + 1)
                } else if trimmed(name).len() <= 16 {
                    trimmed(name)
                } else {
                    trimmed(name).take(16)
                },
                thing: Seq::empty(),
                done: false,
                off: false,
            })
            &&& r.limit == h.limit
            &&& forall|c: usize| #[trigger]
                r.conns.contains(c) <==> h.conns.contains(c) || (conn && c == me)
            &&& told_to_all(h, r)
        }),
{
    let r = h.joined(name, conn);
    let me = h.state.players.len();
    assert forall|c: usize| #[trigger] r.conns.contains(c) <==> h.conns.contains(c) || (conn && c
        == me) by {
        if h.conns.contains(c) {
            let k = choose|k: int| 0 <= k < h.conns.len() && h.conns[k] == c;
            assert(r.conns[k] == c);
        }
        if conn && c == me && !h.conns.contains(c) {
            assert(r.conns[h.conns.len() as int] == c);
        }
        if r.conns.contains(c) && !h.conns.contains(c) {
            let k = choose|k: int| 0 <= k < r.conns.len() && r.conns[k] == c;
            assert(k == h.conns.len()) by {
                if k < h.conns.len() {
                    assert(h.conns[k] == c);
                }
            }
        }
    }
}

/// Who leaves cannot be reached any more; everybody else can, if they could, and is told.
pub proof fn who_leaves_is_cut_off(h: HostView, me: usize, by: ChanceView, c: usize)
    ensures
        ({
            let r = h.left(me, by);
            &&& r.state == h.state.left(me as int, by, h.limit)
            &&& r.limit == h.limit
            &&& r.conns.contains(c) <==> h.conns.contains(c) && c != me
            &&& told_to_all(h, r)
            &&& h.cut_off(me) == HostView { conns: r.conns, ..h }
        }),
{
    lemma_cut_off(h.conns, me, c);
}

proof fn lemma_cut_off(conns: Seq<usize>, me: usize, c: usize)
    ensures
        conns.filter(other_than(me)).contains(c) <==> conns.contains(c) && c != me,
{
    let f = other_than(me);
    let kept = conns.filter(f);
    if kept.contains(c) {
        let k = choose|k: int| 0 <= k < kept.len() && kept[k] == c;
        conns.lemma_filter_pred(f, k);
        conns.lemma_filter_contains_rev(f, c);
    }
    if conns.contains(c) && c != me {
        let k = choose|k: int| 0 <= k < conns.len() && conns[k] == c;
        conns.lemma_filter_contains(f, k);
    }
}

/// The first thing that a connection has to say is to join, under whatever name; whatever else it
/// says first, it is hung up on. After that, whatever it says is asked of the host by that player.
pub proof fn only_a_join_gets_in(me: Option<usize>, c: CmdView)
    ensures
        me is None && c.cmd == "join"@ ==> answered(me, c) == (NextView::Join { name: c.name }),
        me is None && c.cmd != "join"@ ==> answered(me, c) is HangUp,
        me matches Some(i) ==> answered(me, c) == (NextView::Apply { me: i, cmd: c }),
{
}

/// The clock reads the milliseconds since the epoch, or before it less than none.
pub proof fn the_clock_reads_milliseconds(d: u128)
    requires
        d <= i64::MAX,
    ensures
        reading(Ok(d)) == d,
        reading(Err(d)) == -(d as int),
{
}

/// Views have everything that there is.
pub proof fn a_game_is_in_its_view(
    p: Player,
    s: State,
    c: Cmd,
    u: Update,
    h: Host,
    by: Chance,
    next: Next,
)
    ensures
        next is HangUp ==> next@ is HangUp,
        next matches Next::Join { name } ==> next@ == (NextView::Join { name: name@ }),
        next matches Next::Apply { me, cmd } ==> next@ == (NextView::Apply { me, cmd: cmd@ }),
        p@ == (PlayerView { name: p.name@, thing: p.thing@, done: p.done, off: p.off }),
        s@.phase == s.phase@ && s@.turn == s.turn && s@.deadline == s.deadline,
        s@.assigns == s.assigns@,
        s@.players.len() == s.players.len(),
        forall|i: int| 0 <= i < s.players.len() ==> #[trigger] s@.players[i] == s.players[i]@,
        s@.log.len() == s.log.len(),
        forall|i: int| 0 <= i < s.log.len() ==> #[trigger] s@.log[i] == s.log[i]@,
        c@ == (CmdView { cmd: c.cmd@, name: c.name@, text: c.text@ }),
        u@ == (UpdateView { state: u.state@, you: u.you as int }),
        h@.state == h.state@ && h@.conns == h.conns@ && h@.limit == h.limit,
        h@.outbox.len() == h.outbox.len(),
        forall|i: int| 0 <= i < h.outbox.len() ==> #[trigger] h@.outbox[i] == h.outbox[i]@,
        by@.pick == by.pick && by@.now == by.now,
        by@.order.len() == by.order.len(),
        forall|i: int| 0 <= i < by.order.len() ==> #[trigger] by@.order[i] == by.order[i],
{
}

} // verus!
