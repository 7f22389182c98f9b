//! What holds of every game.

use crate::game::{CmdView, PlayerView, StateView, UpdateView};
use crate::host::{
    called, close, contenders, contends, counts, lemma_live, lemma_live_same, lists_live, live,
    other_than, ring_of, seek, updates, ChanceView, HostView, LOG_KEEP, NAME_MAX,
};
use crate::text::{begins, lemma_trimmed_twice, lowercase, trimmed};
use vstd::arithmetic::div_mod::{
    lemma_add_mod_noop, lemma_fundamental_div_mod, lemma_mod_bound, lemma_mod_multiples_vanish,
    lemma_mod_self_0, lemma_small_mod,
};
use vstd::prelude::*;

verus! {

/// The phases are four different words.
pub proof fn lemma_phases()
    ensures
        "lobby"@ != "assign"@,
        "lobby"@ != "play"@,
        "lobby"@ != "over"@,
        "assign"@ != "play"@,
        "assign"@ != "over"@,
        "play"@ != "over"@,
{
    reveal_strlit("lobby");
    reveal_strlit("assign");
    reveal_strlit("play");
    reveal_strlit("over");
    assert("lobby"@.len() == 5);
    assert("assign"@.len() == 6);
    assert("play"@[0] == 'p');
    assert("over"@[0] == 'o');
}

/// The commands are five different words.
pub proof fn lemma_commands()
    ensures
        "start"@ != "restart"@,
        "start"@ != "thing"@,
        "start"@ != "guess"@,
        "start"@ != "skip"@,
        "restart"@ != "thing"@,
        "restart"@ != "guess"@,
        "restart"@ != "skip"@,
        "thing"@ != "guess"@,
        "thing"@ != "skip"@,
        "guess"@ != "skip"@,
{
    reveal_strlit("start");
    reveal_strlit("restart");
    reveal_strlit("thing");
    reveal_strlit("guess");
    reveal_strlit("skip");
    assert("start"@[0] == 's');
    assert("restart"@.len() == 7);
    assert("thing"@[0] == 't');
    assert("guess"@[0] == 'g');
    assert("skip"@.len() == 4);
}

/// Looking at most `k` places past `t` either finds the nearest player still in the game or passes
/// `k` that are not.
proof fn lemma_seek(players: Seq<PlayerView>, t: int, k: nat) -> (j: int)
    requires
        players.len() > 0,
        t >= 0,
    ensures
        0 <= j <= k,
        forall|i: int|
            1 <= i < j ==> !contends(players[#[trigger] ((t + i) % (players.len() as int))]),
        j > 0 ==> {
            &&& seek(players, t, k) == (t + j) % (players.len() as int)
            &&& contends(players[(t + j) % (players.len() as int)])
        },
        j == 0 ==> forall|i: int|
            1 <= i <= k ==> !contends(players[#[trigger] ((t + i) % (players.len() as int))]),
    decreases k,
{
    let n = players.len() as int;
    if k == 0 {
        0
    } else {
        let u = (t + 1) % n;
        lemma_mod_bound(t + 1, n);
        if contends(players[u]) {
            1
        } else {
            let j = lemma_seek(players, u, (k - 1) as nat);
            assert forall|i: int| true implies #[trigger] ((t + i) % n) == (u + (i - 1)) % n by {
                lemma_add_mod_noop(t + 1, i - 1, n);
                lemma_add_mod_noop(u, i - 1, n);
                lemma_small_mod(u as nat, n as nat);
            }
            if j == 0 {
                assert forall|i: int| 1 <= i <= k implies !contends(
                    players[#[trigger] ((t + i) % n)],
                ) by {
                    if i > 1 {
                        assert(!contends(players[(u + (i - 1)) % n]));
                    }
                }
                0
            } else {
                assert forall|i: int| 1 <= i < j + 1 implies !contends(
                    players[#[trigger] ((t + i) % n)],
                ) by {
                    if i > 1 {
                        assert(!contends(players[(u + (i - 1)) % n]));
                    }
                }
                assert((t + (j + 1)) % n == (u + j) % n);
                j + 1
            }
        }
    }
}

/// While anybody is still in the game, the turn passes to the nearest such player around the table,
/// back to the same one where there is no other; players that are done or gone are passed over.
pub proof fn the_turn_goes_to_the_next_contender(s: StateView, now: i64, limit: u64)
    requires
        s.turn >= 0,
        exists|i: int| 0 <= i < s.players.len() && contends(#[trigger] s.players[i]),
    ensures
        ({
            let n = s.players.len() as int;
            let p = s.passed(now, limit);
            &&& p.players == s.players
            &&& p.phase == s.phase
            &&& 0 <= p.turn < n
            &&& contends(p.players[p.turn])
            &&& exists|k: int|
                1 <= k <= n && p.turn == #[trigger] ((s.turn + k) % n) && forall|i: int|
                    1 <= i < k ==> !contends(s.players[#[trigger] ((s.turn + i) % n)])
        }),
{
    let n = s.players.len() as int;
    let t = s.turn;
    let w = choose|i: int| 0 <= i < s.players.len() && contends(#[trigger] s.players[i]);
    let j = lemma_seek(s.players, t, s.players.len());
    if j == 0 {
        // Some step from 1 to n leads from t to w.
        let r = (w - t - 1) % n;
        lemma_mod_bound(w - t - 1, n);
        let i = r + 1;
        let q = (w - t - 1) / n;
        lemma_fundamental_div_mod(w - t - 1, n);
        assert(t + i == w + n * (-q)) by (nonlinear_arith)
            requires
                w - t - 1 == n * q + r,
                i == r + 1,
        ;
        lemma_mod_multiples_vanish(-q, w, n);
        assert(n * (-q) + w == t + i);
        lemma_small_mod(w as nat, n as nat);
        assert((t + i) % n == w);
        assert(!contends(s.players[(t + i) % n]));
        assert(false);
    }
    lemma_mod_bound(t + j, n);
}

/// When nobody is left to play, and only then, passing the turn ends the game and stops the clock.
pub proof fn the_game_ends_when_nobody_is_left(s: StateView, now: i64, limit: u64)
    requires
        s.phase == "play"@,
    ensures
        s.passed(now, limit).phase == "over"@ <==> (forall|i: int|
            0 <= i < s.players.len() ==> !contends(#[trigger] s.players[i])),
        s.passed(now, limit).phase == "over"@ ==> s.passed(now, limit).deadline == 0,
{
    lemma_phases();
}

/// In a ring of two or more, everybody there draws somebody else that is there, and everybody there
/// is drawn by exactly one; who has left draws nobody and is drawn by nobody.
pub proof fn a_ring_is_a_derangement(players: Seq<PlayerView>, order: Seq<int>)
    requires
        lists_live(order, players),
        order.len() >= 2,
        players.len() <= i32::MAX,
    ensures
        ({
            let a = ring_of(players.len(), order);
            &&& a.len() == players.len()
            &&& forall|p: int|
                0 <= p < players.len() && !(#[trigger] players[p]).off ==> {
                    &&& a[p] != p
                    &&& 0 <= a[p] < players.len()
                    &&& !players[a[p] as int].off
                }
            &&& forall|p: int|
                0 <= p < players.len() && (#[trigger] players[p]).off ==> a[p] == -1
            &&& forall|p: int, q: int|
                0 <= p < players.len() && 0 <= q < players.len() && !players[p].off && a[p] == a[q]
                    ==> p == q
            &&& forall|q: int|
                0 <= q < players.len() && !(#[trigger] players[q]).off ==> exists|p: int|
                    0 <= p < players.len() && #[trigger] a[p] == q
        }),
{
    let n = order.len() as int;
    let a = ring_of(players.len(), order);
    assert forall|p: int| 0 <= p < players.len() && !(#[trigger] players[p]).off implies {
        let k = order.index_of(p);
        let m = if k + 1 == n {
            0
        } else {
            k + 1
        };
        &&& 0 <= k < n
        &&& order[k] == p
        &&& a[p] == order[m]
        &&& 0 <= order[m] < players.len()
        &&& !players[order[m]].off
        &&& order[m] != p
    } by {
        assert(order.contains(p));
        let k = order.index_of(p);
        let m = if k + 1 == n {
            0
        } else {
            k + 1
        };
        assert((k + 1) % n == m) by {
            if k + 1 < n {
                lemma_small_mod((k + 1) as nat, n as nat);
            } else {
                lemma_mod_self_0(n);
            }
        }
        assert(order.contains(order[m]));
        assert(order[m] != order[k]);
    }
    assert forall|p: int| 0 <= p < players.len() && (#[trigger] players[p]).off implies a[p]
        == -1 by {
        assert(!order.contains(p));
    }
    assert forall|p: int, q: int|
        0 <= p < players.len() && 0 <= q < players.len() && !players[p].off && a[p]
            == a[q] implies p == q by {
        assert(!players[q].off);
        let k = order.index_of(p);
        let l = order.index_of(q);
        let m = if k + 1 == n {
            0
        } else {
            k + 1
        };
        let o = if l + 1 == n {
            0
        } else {
            l + 1
        };
        assert(order[m] == order[o]);
        assert(m == o);
    }
    assert forall|q: int| 0 <= q < players.len() && !(#[trigger] players[q]).off implies exists|
        p: int,
    | 0 <= p < players.len() && #[trigger] a[p] == q by {
        assert(order.contains(q));
        let k = order.index_of(q);
        let b = if k == 0 {
            n - 1
        } else {
            k - 1
        };
        let p = order[b];
        assert(order.contains(p));
        assert(!players[p].off);
        assert(order[order.index_of(p)] == order[b]);
        assert(order.index_of(p) == b);
        assert(a[p] == q);
    }
}

/// The player that `k` steps lead to from player `p`, each step to whom the player names a thing
/// for.
pub open spec fn follow(a: Seq<i32>, p: int, k: nat) -> int
    decreases k,
{
    if k == 0 {
        p
    } else {
        a[follow(a, p, (k - 1) as nat)] as int
    }
}

/// The place `k` steps on from place `i` around a table of `n`.
spec fn around(i: int, k: int, n: int) -> int {
    if i + k < n {
        i + k
    } else {
        i + k - n
    }
}

proof fn lemma_follow(players: Seq<PlayerView>, order: Seq<int>, i: int, k: nat)
    requires
        lists_live(order, players),
        players.len() <= i32::MAX,
        0 <= i < order.len(),
        k <= order.len(),
    ensures
        follow(ring_of(players.len(), order), order[i], k) == order[around(
            i,
            k as int,
            order.len() as int,
        )],
    decreases k,
{
    if k > 0 {
        let n = order.len() as int;
        let a = ring_of(players.len(), order);
        lemma_follow(players, order, i, (k - 1) as nat);
        let m = around(i, k - 1, n);
        let p = order[m];
        assert(order.contains(p));
        assert(order.index_of(p) == m);
        let next = around(i, k as int, n);
        assert((m + 1) % n == next) by {
            if m + 1 < n {
                lemma_small_mod((m + 1) as nat, n as nat);
            } else {
                lemma_mod_self_0(n);
            }
        }
        assert(order.contains(order[next]));
        assert(a[p] == order[next]);
    }
}

/// The draw is one single ring: going from anybody there to whom they name a thing for, and so on,
/// comes by everybody there once, and then back.
pub proof fn a_ring_is_one_round(players: Seq<PlayerView>, order: Seq<int>, p: int)
    requires
        lists_live(order, players),
        players.len() <= i32::MAX,
        0 <= p < players.len(),
        !players[p].off,
    ensures
        ({
            let a = ring_of(players.len(), order);
            let n = order.len();
            &&& follow(a, p, n) == p
            &&& forall|k: nat|
                k < n ==> {
                    let q = #[trigger] follow(a, p, k);
                    0 <= q < players.len() && !players[q].off
                }
            &&& forall|q: int|
                0 <= q < players.len() && !(#[trigger] players[q]).off ==> exists|k: nat|
                    k < n && #[trigger] follow(a, p, k) == q
            &&& forall|k: nat, l: nat|
                k < l < n ==> #[trigger] follow(a, p, k) != #[trigger] follow(a, p, l)
        }),
{
    let a = ring_of(players.len(), order);
    let n = order.len();
    assert(order.contains(p));
    let i = order.index_of(p);
    lemma_follow(players, order, i, n);
    assert forall|k: nat| k < n implies {
        let q = #[trigger] follow(a, p, k);
        0 <= q < players.len() && !players[q].off
    } by {
        lemma_follow(players, order, i, k);
        assert(order.contains(order[around(i, k as int, n as int)]));
    }
    assert forall|q: int| 0 <= q < players.len() && !(#[trigger] players[q]).off implies exists|
        k: nat,
    | k < n && #[trigger] follow(a, p, k) == q by {
        assert(order.contains(q));
        let l = order.index_of(q);
        let k = (if l >= i {
            l - i
        } else {
            l - i + n
        }) as nat;
        lemma_follow(players, order, i, k);
        assert(around(i, k as int, n as int) == l);
        assert(follow(a, p, k) == q);
    }
    assert forall|k: nat, l: nat| k < l < n implies #[trigger] follow(a, p, k)
        != #[trigger] follow(a, p, l) by {
        lemma_follow(players, order, i, k);
        lemma_follow(players, order, i, l);
        assert(around(i, k as int, n as int) != around(i, l as int, n as int));
    }
}

/// Only the host starts or restarts a game.
pub proof fn only_the_host_starts(s: StateView, me: int, c: CmdView)
    requires
        me != 0,
        c.cmd == "start"@ || c.cmd == "restart"@,
    ensures
        !s.accepts(me, c),
{
}

/// A game starts from the lobby and restarts from anywhere else, with two players there at least;
/// either way the next thing is to name things.
pub proof fn the_host_starts_and_restarts(s: StateView, c: CmdView, by: ChanceView, limit: u64)
    requires
        live(s.players).len() >= 2,
        c.cmd == (if s.phase == "lobby"@ {
            "start"@
        } else {
            "restart"@
        }),
    ensures
        s.accepts(0, c),
        s.applied(0, c, by, limit).phase == "assign"@,
{
    lemma_commands();
}

/// Nobody guesses or passes out of turn, nor outside of play.
pub proof fn only_who_has_the_turn_plays(s: StateView, me: int, c: CmdView)
    requires
        c.cmd == "guess"@ || c.cmd == "skip"@,
        me != s.turn || s.phase != "play"@,
    ensures
        !s.accepts(me, c),
{
    lemma_commands();
}

/// What is refused changes nothing and is told to nobody.
pub proof fn a_refused_command_changes_nothing(h: HostView, me: int, c: CmdView, by: ChanceView)
    requires
        !h.state.accepts(me, c),
    ensures
        h.applied(me, c, by) == h,
{
}

/// A new draw clears the board: nobody has a thing and nobody is done, the clock stands, and
/// everybody keeps their name and their place.
pub proof fn a_new_draw_clears_the_board(s: StateView, why: Seq<char>, order: Seq<int>)
    ensures
        ({
            let r = s.redrawn(why, order);
            &&& r.phase == "assign"@
            &&& r.deadline == 0
            &&& r.players.len() == s.players.len()
            &&& forall|i: int|
                0 <= i < r.players.len() ==> {
                    &&& (#[trigger] r.players[i]).thing.len() == 0
                    &&& !r.players[i].done
                    &&& r.players[i].name == s.players[i].name
                    &&& r.players[i].off == s.players[i].off
                }
        }),
{
}

/// A restart forgets the log of the round before.
pub proof fn a_restart_clears_the_log(s: StateView, c: CmdView, by: ChanceView, limit: u64)
    requires
        c.cmd == "restart"@,
        s.accepts(0, c),
    ensures
        s.applied(0, c, by, limit).log == seq!["New round — assign again."@],
{
    lemma_commands();
    assert(s.applied(0, c, by, limit).log =~= seq!["New round — assign again."@]);
}

/// A thing goes to whom the player drew and touches nobody else.
pub proof fn a_thing_reaches_its_target_alone(
    s: StateView,
    me: int,
    c: CmdView,
    by: ChanceView,
    limit: u64,
)
    requires
        s.wf(),
        c.cmd == "thing"@,
        s.accepts(me, c),
        me >= 0,
    ensures
        ({
            let who = s.assigns[me] as int;
            let r = s.applied(me, c, by, limit);
            &&& r.players.len() == s.players.len()
            &&& r.players[who] == PlayerView { thing: c.text, ..s.players[who] }
            &&& forall|i: int|
                0 <= i < s.players.len() && i != who ==> #[trigger] r.players[i] == s.players[i]
        }),
{
    lemma_commands();
}

/// Play starts only when everybody there has a thing, and with somebody that is there; naming a
/// thing starts it as soon as that is so.
pub proof fn play_starts_when_everybody_has_a_thing(
    s: StateView,
    pick: int,
    now: i64,
    limit: u64,
)
    requires
        s.phase == "assign"@,
        0 <= pick,
        live(s.players).len() > 0 ==> pick < live(s.players).len(),
    ensures
        ({
            let r = s.started(pick, now, limit);
            &&& r.phase == "play"@ <==> s.ready()
            &&& r.phase == "play"@ ==> 0 <= r.turn < r.players.len() && !r.players[r.turn].off
            &&& r.players == s.players
        }),
{
    lemma_phases();
    lemma_live(s.players);
    if s.ready() {
        let l = live(s.players);
        assert(l.contains(l[pick]));
    }
}

/// A player alone in the game is on no clock.
pub proof fn the_last_player_has_no_clock(s: StateView, now: i64, limit: u64)
    requires
        contenders(s.players) <= 1,
    ensures
        s.armed(now, limit).deadline == 0,
        s.passed(now, limit).deadline == 0,
{
}

/// With two players or more in the game, a turn ends `limit` after it began.
pub proof fn a_turn_lasts_its_limit(s: StateView, now: i64, limit: u64)
    requires
        contenders(s.players) > 1,
        now + limit <= i64::MAX,
    ensures
        s.armed(now, limit).deadline == now + limit,
{
}

/// A turn is not timed out before its end, nor ever without one.
pub proof fn no_turn_ends_early(h: HostView, now: i64, later: i64)
    requires
        h.state.deadline == 0 || now < h.state.deadline,
    ensures
        h.ticked(now, later) == h,
{
}

/// Who leaves owing a thing leaves a clean board and a new draw behind.
pub proof fn leaving_before_naming_redraws(
    s: StateView,
    me: int,
    by: ChanceView,
    limit: u64,
)
    requires
        0 <= me < s.players.len(),
        s.phase == "assign"@,
        s.dropped(me).owes(me),
    ensures
        ({
            let r = s.left(me, by, limit);
            &&& r.phase == "assign"@
            &&& r.assigns == ring_of(s.players.len(), by.order)
            &&& r.players[me].off
            &&& forall|i: int|
                0 <= i < r.players.len() ==> (#[trigger] r.players[i]).thing.len() == 0
        }),
{
    lemma_phases();
    let d = s.dropped(me);
    let r = d.redrawn("Redrawing — they left before assigning."@, by.order);
    lemma_live(r.players);
    if live(r.players).len() > 0 {
        let p = live(r.players)[0];
        assert(live(r.players).contains(p));
        assert(!r.players[p].off);
        assert(r.players[p].thing.len() == 0);
    }
}

/// A guess counts the same either way round.
pub proof fn close_is_symmetric(g: Seq<char>, t: Seq<char>)
    ensures
        close(g, t) == close(t, g),
{
}

/// The thing itself is always a hit, unless there is nothing to it.
pub proof fn the_thing_itself_is_a_hit(t: Seq<char>)
    requires
        t.len() > 0,
    ensures
        close(t, t),
{
}

/// A guess of up to three characters hits a thing as short only by being it.
pub proof fn short_guesses_must_be_exact(g: Seq<char>, t: Seq<char>)
    requires
        g.len() <= 3,
        t.len() <= 3,
        close(g, t),
    ensures
        g == t,
{
}

/// A hit never takes one text for another of the same length.
pub proof fn hits_of_one_length_are_exact(g: Seq<char>, t: Seq<char>)
    requires
        g.len() == t.len(),
        close(g, t),
    ensures
        g == t,
{
    assert(t.subrange(0, t.len() as int) =~= t);
    assert(g.subrange(0, g.len() as int) =~= g);
}

/// Which of two texts is the guess makes no difference.
pub proof fn counting_is_symmetric(g: Seq<char>, t: Seq<char>)
    ensures
        counts(g, t) == counts(t, g),
{
}

/// White space around a guess or a thing makes no difference.
pub proof fn white_space_around_makes_no_difference(g: Seq<char>, t: Seq<char>)
    ensures
        counts(trimmed(g), t) == counts(g, t),
        counts(g, trimmed(t)) == counts(g, t),
{
    lemma_trimmed_twice(g);
    lemma_trimmed_twice(t);
}

/// Case makes no difference: texts with the same lower case count as each other, and as the same
/// others.
pub proof fn case_makes_no_difference(g: Seq<char>, h: Seq<char>, t: Seq<char>)
    requires
        lowercase(trimmed(g)) == lowercase(trimmed(h)),
    ensures
        counts(g, t) == counts(h, t),
        counts(t, g) == counts(t, h),
{
}

/// Texts of up to three characters in lower case count as each other only by being the same there.
pub proof fn short_texts_must_be_exact(g: Seq<char>, t: Seq<char>)
    requires
        lowercase(trimmed(g)).len() <= 3,
        lowercase(trimmed(t)).len() <= 3,
        counts(g, t),
    ensures
        lowercase(trimmed(g)) == lowercase(trimmed(t)),
{
}

/// Everybody has a name: the one they gave, cut short, or their place.
pub proof fn everybody_has_a_name(name: Seq<char>, me: nat)
    ensures
        called(name, me).len() > 0,
        name.len() > 0 ==> called(name, me).len() <= NAME_MAX && begins(name, called(name, me)),
{
    reveal_strlit("player");
    assert(name.subrange(0, name.len() as int) =~= name);
    assert(name.len() > NAME_MAX ==> name.subrange(0, NAME_MAX as int) =~= name.take(
        NAME_MAX as int,
    ));
}

/// Each player that can be reached is told the game once, with their own place in it.
pub proof fn everybody_reachable_is_told_once(h: HostView, c: usize)
    requires
        h.conns.no_duplicates(),
        h.conns.contains(c),
    ensures
        ({
            let news = updates(h.state, h.conns);
            let mine = UpdateView { state: h.state, you: c as int };
            &&& h.told().outbox == h.outbox + news
            &&& news.contains(mine)
            &&& forall|i: int, j: int|
                0 <= i < news.len() && 0 <= j < news.len() && news[i] == mine && news[j] == mine
                    ==> i == j
        }),
{
    let news = updates(h.state, h.conns);
    let k = choose|k: int| 0 <= k < h.conns.len() && h.conns[k] == c;
    assert(news[k] == UpdateView { state: h.state, you: c as int });
}

impl StateView {
    /// A game as play makes it: what it points at is there, the log is short, only a turn has an
    /// end, nobody is done while things are named, and who has the turn is still in the game.
    pub open spec fn fair(self) -> bool {
        &&& self.wf()
        &&& self.log.len() <= LOG_KEEP
        &&& self.assigns.len() <= self.players.len()
        &&& self.phase != "play"@ ==> self.deadline == 0
        &&& self.phase == "assign"@ ==> forall|i: int|
            0 <= i < self.players.len() ==> !(#[trigger] self.players[i]).done
        &&& self.phase == "play"@ ==> contends(self.players[self.turn])
    }
}

impl HostView {
    /// The players that can be reached are players, each listed once, in the order of their places.
    pub open spec fn linked(self) -> bool {
        &&& forall|i: int, j: int| 0 <= i < j < self.conns.len() ==> self.conns[i] < self.conns[j]
        &&& forall|i: int|
            0 <= i < self.conns.len() ==> #[trigger] self.conns[i] < self.state.players.len()
    }
}

/// No number grows when it is cut to 32 bits with a sign.
proof fn lemma_cut(x: usize)
    ensures
        (x as i32) <= x,
{
    assert((x as i32) <= x) by (bit_vector);
}

/// A draw points at players.
proof fn lemma_redrawn_fair(s: StateView, why: Seq<char>, order: Seq<int>)
    requires
        s.turn >= 0,
        s.log.len() <= LOG_KEEP,
        lists_live(order, s.players),
        s.players.len() <= usize::MAX,
    ensures
        s.redrawn(why, order).fair(),
{
    lemma_phases();
    let r = s.redrawn(why, order);
    assert forall|i: int| 0 <= i < r.assigns.len() implies #[trigger] r.assigns[i]
        < r.players.len() by {
        if order.contains(i) {
            let n = order.len() as int;
            let k = (order.index_of(i) + 1) % n;
            lemma_mod_bound(order.index_of(i) + 1, n);
            assert(order.contains(order[k]));
            lemma_cut(order[k] as usize);
        }
    }
}

proof fn lemma_passed_fair(s: StateView, now: i64, limit: u64)
    requires
        s.wf(),
        s.log.len() <= LOG_KEEP,
        s.assigns.len() <= s.players.len(),
        s.phase == "play"@,
    ensures
        s.passed(now, limit).fair(),
{
    lemma_phases();
    if exists|i: int| 0 <= i < s.players.len() && contends(#[trigger] s.players[i]) {
        the_turn_goes_to_the_next_contender(s, now, limit);
    }
}

proof fn lemma_started_fair(s: StateView, pick: int, now: i64, limit: u64)
    requires
        s.fair(),
        s.phase == "assign"@,
        0 <= pick,
        live(s.players).len() > 0 ==> pick < live(s.players).len(),
    ensures
        s.started(pick, now, limit).fair(),
{
    lemma_phases();
    play_starts_when_everybody_has_a_thing(s, pick, now, limit);
}

/// Every player of `s` is in the same place in `t`, under the same name, and gone if they were, or
/// if they are player `me`.
pub open spec fn same_seats(s: StateView, t: StateView, me: Option<int>) -> bool {
    &&& t.players.len() == s.players.len()
    &&& forall|i: int|
        0 <= i < s.players.len() ==> {
            &&& (#[trigger] t.players[i]).name == s.players[i].name
            &&& t.players[i].off == (s.players[i].off || me == Some(i))
        }
}

/// Whatever happens, everybody keeps their place and their name; who has left stays away, and
/// nobody goes but who leaves.
pub proof fn nobody_loses_their_place(
    s: StateView,
    me: int,
    c: CmdView,
    by: ChanceView,
    limit: u64,
    later: i64,
)
    requires
        s.wf(),
        me >= 0,
    ensures
        same_seats(s, s.applied(me, c, by, limit), None),
        me < s.players.len() ==> same_seats(s, s.left(me, by, limit), Some(me)),
        same_seats(s, s.timed_out(later, limit), None),
{
    lemma_commands();
    if s.accepts(me, c) && c.cmd == "thing"@ {
        assert(s.assigns[me] < s.players.len());
    }
}

/// A guess touches nobody but the guesser, and of them only whether they are done: they are if it
/// was a hit, or if they were before.
pub proof fn a_guess_touches_only_the_guesser(
    s: StateView,
    me: int,
    text: Seq<char>,
    hit: bool,
    now: i64,
    limit: u64,
)
    requires
        0 <= me < s.players.len(),
    ensures
        ({
            let r = s.guessed(me, text, hit, now, limit);
            let p = s.players[me];
            &&& r.players == s.players.update(me, PlayerView { done: p.done || hit, ..p })
            &&& r.assigns == s.assigns
        }),
{
    let p = s.players[me];
    assert(s.players.update(me, p) =~= s.players);
}

/// Each player that gets it leaves one fewer in the game.
pub proof fn a_hit_brings_the_end_nearer(
    s: StateView,
    me: int,
    text: Seq<char>,
    now: i64,
    limit: u64,
)
    requires
        0 <= me < s.players.len(),
        contends(s.players[me]),
    ensures
        contenders(s.guessed(me, text, true, now, limit).players) + 1 == contenders(s.players),
{
    lemma_one_fewer(s.players, me, PlayerView { done: true, ..s.players[me] });
}

proof fn lemma_one_fewer(players: Seq<PlayerView>, me: int, p: PlayerView)
    requires
        0 <= me < players.len(),
        contends(players[me]),
        !contends(p),
    ensures
        contenders(players.update(me, p)) + 1 == contenders(players),
    decreases players.len(),
{
    let init = players.drop_last();
    if me == players.len() - 1 {
        assert(players.update(me, p).drop_last() =~= init);
    } else {
        lemma_one_fewer(init, me, p);
        assert(players.update(me, p).drop_last() =~= init.update(me, p));
    }
}

/// Running out of time costs a turn and nothing else.
pub proof fn running_out_of_time_costs_only_the_turn(s: StateView, later: i64, limit: u64)
    ensures
        s.timed_out(later, limit).players == s.players,
        s.timed_out(later, limit).assigns == s.assigns,
{
}

/// A sound game can take any command, anybody's leaving and any look at the clock.
pub proof fn a_sound_game_takes_everything(s: StateView, me: int, c: CmdView)
    requires
        s.wf(),
        me >= 0,
    ensures
        s.fit_for(me, c),
        me < s.players.len() ==> s.fit_without(me),
        s.fit_for_the_clock(),
{
    lemma_commands();
    if s.accepts(me, c) && c.cmd == "thing"@ {
        assert(s.assigns[me] < s.players.len());
    }
    if me < s.assigns.len() {
        assert(s.assigns[me] < s.players.len());
    }
}

/// A new host has nobody to reach and nothing to send, gives a minute and a half to a turn, and its
/// game, without players and in the lobby, is fair.
pub proof fn a_new_game_is_fair()
    ensures
        ({
            let h = HostView::fresh();
            let s = h.state;
            &&& h.conns.len() == 0 && h.outbox.len() == 0 && h.limit == 90_000
            &&& s.phase == "lobby"@ && s.turn == 0 && s.deadline == 0
            &&& s.players.len() == 0 && s.assigns.len() == 0 && s.log.len() == 0
            &&& s.fair()
            &&& h.linked()
        }),
{
    lemma_phases();
}

/// A player that joins, at any time, leaves the game fair and everybody in their place.
pub proof fn joining_keeps_the_game_fair(s: StateView, name: Seq<char>)
    requires
        s.fair(),
    ensures
        s.seated(name).fair(),
        forall|i: int|
            0 <= i < s.players.len() ==> #[trigger] s.seated(name).players[i] == s.players[i],
{
    let r = s.seated(name);
    assert forall|i: int| 0 <= i < r.assigns.len() implies #[trigger] r.assigns[i]
        < r.players.len() by {
        assert(s.assigns[i] < s.players.len());
    }
}

/// Whatever a player asks for, at any time, leaves the game fair.
pub proof fn commands_keep_the_game_fair(
    s: StateView,
    me: int,
    c: CmdView,
    by: ChanceView,
    limit: u64,
)
    requires
        s.fair(),
        me >= 0,
        by.fits(s.players),
        s.players.len() <= usize::MAX,
    ensures
        s.applied(me, c, by, limit).fair(),
{
    lemma_phases();
    lemma_commands();
    if s.accepts(me, c) {
        if c.cmd == "start"@ {
            lemma_redrawn_fair(
                s,
                "Assign phase — everyone name the thing for their target."@,
                by.order,
            );
        } else if c.cmd == "restart"@ {
            lemma_redrawn_fair(
                StateView { log: Seq::empty(), ..s },
                "New round — assign again."@,
                by.order,
            );
        } else if c.cmd == "thing"@ {
            let who = s.assigns[me] as int;
            assert(s.assigns[me] < s.players.len());
            let t = s.named(who, c.text);
            lemma_live_same(s.players, t.players);
            assert forall|i: int| 0 <= i < t.assigns.len() implies #[trigger] t.assigns[i]
                < t.players.len() by {
                assert(s.assigns[i] < s.players.len());
            }
            assert(t.fair());
            lemma_started_fair(t, by.pick, by.now, limit);
        } else if c.cmd == "skip"@ {
            lemma_passed_fair(s.logged(s.players[me].name + " passed."@), by.now, limit);
        } else {
            let p = s.players[me];
            let hit = counts(c.text, p.thing);
            let t = if hit {
                StateView {
                    players: s.players.update(me, PlayerView { done: true, ..p }),
                    ..s
                }.logged(p.name + " got it: "@ + p.thing + " ✓"@)
            } else {
                s.logged(p.name + " guessed \""@ + c.text + "\" — nope."@)
            };
            assert forall|i: int| 0 <= i < t.assigns.len() implies #[trigger] t.assigns[i]
                < t.players.len() by {
                assert(s.assigns[i] < s.players.len());
            }
            lemma_passed_fair(t, by.now, limit);
        }
    }
}

/// Whoever leaves, at any time, leaves the game fair.
pub proof fn leaving_keeps_the_game_fair(s: StateView, me: int, by: ChanceView, limit: u64)
    requires
        s.fair(),
        0 <= me < s.players.len(),
        by.fits(s.dropped(me).players),
        s.players.len() <= usize::MAX,
    ensures
        s.left(me, by, limit).fair(),
{
    lemma_phases();
    let d = s.dropped(me);
    assert forall|i: int| 0 <= i < d.assigns.len() implies #[trigger] d.assigns[i]
        < d.players.len() by {
        assert(s.assigns[i] < s.players.len());
    }
    if d.phase == "assign"@ {
        assert forall|i: int| 0 <= i < d.players.len() implies !(
        #[trigger] d.players[i]).done by {
            assert(!s.players[i].done);
        }
        assert(d.fair());
        if d.owes(me) {
            let why = "Redrawing — they left before assigning."@;
            lemma_redrawn_fair(d, why, by.order);
            lemma_live_same(d.players, d.redrawn(why, by.order).players);
            lemma_started_fair(d.redrawn(why, by.order), by.pick, by.now, limit);
        } else {
            lemma_started_fair(d, by.pick, by.now, limit);
        }
    } else if d.phase == "play"@ && d.turn == me {
        lemma_passed_fair(d, by.now, limit);
    }
}

/// A turn that runs out leaves the game fair.
pub proof fn the_clock_keeps_the_game_fair(s: StateView, now: i64, later: i64, limit: u64)
    requires
        s.fair(),
        s.overdue(now),
    ensures
        s.timed_out(later, limit).fair(),
{
    lemma_passed_fair(
        s.logged(s.players[s.turn].name + " ran out of time."@),
        later,
        limit,
    );
}

/// Joining and leaving keep the list of reachable players in order.
pub proof fn connections_stay_in_order(
    h: HostView,
    name: Seq<char>,
    conn: bool,
    me: usize,
    by: ChanceView,
)
    requires
        h.linked(),
        h.state.players.len() <= usize::MAX,
    ensures
        h.joined(name, conn).linked(),
        me < h.state.players.len() ==> h.left(me, by).linked(),
        me < h.state.players.len() ==> !h.left(me, by).conns.contains(me),
{
    let kept = h.conns.filter(other_than(me));
    lemma_filter_keeps_order(h.conns, me);
    if me < h.state.players.len() {
        assert(h.left(me, by).conns == kept);
        assert(h.left(me, by).state.players.len() == h.state.players.len());
        assert forall|i: int| 0 <= i < kept.len() implies #[trigger] kept[i]
            < h.state.players.len() by {
            assert(kept.contains(kept[i]));
            let k = choose|k: int| 0 <= k < h.conns.len() && h.conns[k] == kept[i];
            assert(h.conns[k] < h.state.players.len());
        }
    }
}

proof fn lemma_filter_keeps_order(conns: Seq<usize>, me: usize)
    requires
        forall|i: int, j: int| 0 <= i < j < conns.len() ==> conns[i] < conns[j],
    ensures
        ({
            let kept = conns.filter(other_than(me));
            &&& forall|i: int, j: int| 0 <= i < j < kept.len() ==> kept[i] < kept[j]
            &&& forall|c: usize| #[trigger] kept.contains(c) ==> conns.contains(c) && c != me
        }),
    decreases conns.len(),
{
    reveal(Seq::filter);
    if conns.len() > 0 {
        let init = conns.drop_last();
        lemma_filter_keeps_order(init, me);
        let kept = conns.filter(other_than(me));
        let rest = init.filter(other_than(me));
        assert forall|i: int, j: int| 0 <= i < j < kept.len() implies kept[i] < kept[j] by {
            assert(rest.contains(rest[i]));
            if j == rest.len() {
                let k = choose|k: int| 0 <= k < init.len() && init[k] == rest[i];
                assert(conns[k] < conns[conns.len() - 1]);
            }
        }
        assert forall|c: usize| #[trigger] kept.contains(c) implies conns.contains(c) && c
            != me by {
            let k = choose|k: int| 0 <= k < kept.len() && kept[k] == c;
            if k < rest.len() {
                assert(rest.contains(c));
                let m = choose|m: int| 0 <= m < init.len() && init[m] == c;
                assert(conns[m] == c);
            } else {
                assert(conns[conns.len() - 1] == c);
            }
        }
    }
}

} // verus!
