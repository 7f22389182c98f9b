//! The host: the rules of the game, and what is sent to whom.

use crate::game::{
    letters_out, seats, Cmd, CmdView, Player, PlayerView, State, StateView, Update, UpdateView,
};
use crate::host_laws::lemma_commands;
use crate::text::{
    contains, cut, decimal, digits, lowercase, occurs, plus, same, trim, trimmed, width,
};
use rand::seq::SliceRandom;
use rand::Rng;
use vstd::prelude::*;

verus! {

/// How long a turn lasts, in milliseconds.
pub const TURN_LIMIT: u64 = 90_000;

/// How many lines of the log are kept.
pub const LOG_KEEP: usize = 60;

/// The longest name, in characters.
pub const NAME_MAX: usize = 16;

/// The player is still in the game: has not left and has not guessed.
pub open spec fn contends(p: PlayerView) -> bool {
    !p.done && !p.off
}

/// How many players are still in the game.
pub open spec fn contenders(players: Seq<PlayerView>) -> nat
    decreases players.len(),
{
    if players.len() == 0 {
        0
    } else {
        contenders(players.drop_last()) + (if contends(players.last()) {
            1nat
        } else {
            0nat
        })
    }
}

/// The players that have not left, in the order in which they joined.
pub open spec fn live(players: Seq<PlayerView>) -> Seq<int>
    decreases players.len(),
{
    if players.len() == 0 {
        Seq::empty()
    } else {
        let rest = live(players.drop_last());
        if players.last().off {
            rest
        } else {
            rest.push(players.len() - 1)
        }
    }
}

/// `order` lists each player that has not left, once.
pub open spec fn lists_live(order: Seq<int>, players: Seq<PlayerView>) -> bool {
    &&& order.no_duplicates()
    &&& forall|p: int|
        #![trigger order.contains(p)]
        #![trigger players[p]]
        order.contains(p) <==> 0 <= p < players.len() && !players[p].off
}

/// Each player in `order` has the next one, the last has the first, and the others have nobody.
pub open spec fn ring_of(n: nat, order: Seq<int>) -> Seq<i32> {
    Seq::new(
        n,
        |p: int|
            if order.contains(p) {
                order[(order.index_of(p) + 1) % (order.len() as int)] as i32
            } else {
                (-1) as i32
            },
    )
}

/// The integers of a list of indices.
pub open spec fn ints(v: Seq<usize>) -> Seq<int> {
    Seq::new(v.len(), |i: int| v[i] as int)
}

/// The first player past `t`, of the next `k` around the table, that is still in the game.
pub open spec fn seek(players: Seq<PlayerView>, t: int, k: nat) -> int
    decreases k,
{
    if k == 0 {
        t
    } else {
        let u = (t + 1) % (players.len() as int);
        if contends(players[u]) {
            u
        } else {
            seek(players, u, (k - 1) as nat)
        }
    }
}

/// Two texts, in lower case and without white space around them, are the same for the game: equal,
/// or one of them, of more than three characters, stands in the other.
pub open spec fn close(g: Seq<char>, t: Seq<char>) -> bool {
    &&& g.len() > 0
    &&& t.len() > 0
    &&& (g == t || (g.len() > 3 && occurs(g, t)) || (t.len() > 3 && occurs(t, g)))
}

/// A guess counts as a thing, whatever the case and the white space around either.
pub open spec fn counts(guess: Seq<char>, thing: Seq<char>) -> bool {
    close(lowercase(trimmed(guess)), lowercase(trimmed(thing)))
}

/// The name that player `me` goes by, having given `name`, without white space around it.
pub open spec fn called(name: Seq<char>, me: nat) -> Seq<char> {
    if name.len() == 0 {
        "player"@ + digits(me + 1)
    } else if name.len() > NAME_MAX {
        name.take(NAME_MAX as int)
    } else {
        name
    }
}

/// What is left to chance and to the clock: an order of the players that have not left, a choice
/// among them, and the time.
pub struct Chance {
    pub order: Vec<usize>,
    pub pick: usize,
    pub now: i64,
}

/// What a `Chance` holds.
pub struct ChanceView {
    pub order: Seq<int>,
    pub pick: int,
    pub now: i64,
}

impl View for Chance {
    type V = ChanceView;

    open spec fn view(&self) -> ChanceView {
        ChanceView { order: ints(self.order@), pick: self.pick as int, now: self.now }
    }
}

impl ChanceView {
    /// The chance is one for these players.
    pub open spec fn fits(self, players: Seq<PlayerView>) -> bool {
        &&& lists_live(self.order, players)
        &&& 0 <= self.pick
        &&& live(players).len() > 0 ==> self.pick < live(players).len()
    }
}

impl StateView {
    /// What the players and the turn point at is there.
    pub open spec fn wf(self) -> bool {
        &&& 0 <= self.turn
        &&& forall|i: int|
            0 <= i < self.assigns.len() ==> #[trigger] self.assigns[i] < self.players.len()
        &&& self.phase == "play"@ ==> self.turn < self.players.len()
    }

    /// With `line` in the log, of which the last lines are kept.
    pub open spec fn logged(self, line: Seq<char>) -> StateView {
        let all = self.log.push(line);
        StateView {
            log: if all.len() > LOG_KEEP {
                all.skip(all.len() - LOG_KEEP)
            } else {
                all
            },
            ..self
        }
    }

    /// With the clock set: a turn has an end only where more than one player is still in the game.
    pub open spec fn armed(self, now: i64, limit: u64) -> StateView {
        StateView {
            deadline: if contenders(self.players) > 1 {
                now.wrapping_add_unsigned(limit)
            } else {
                0
            },
            ..self
        }
    }

    /// With a clean board, and each player that has not left drawn for the one before in `order`.
    pub open spec fn redrawn(self, why: Seq<char>, order: Seq<int>) -> StateView {
        StateView {
            phase: "assign"@,
            players: self.players.map_values(
                |p: PlayerView| PlayerView { thing: Seq::empty(), done: false, ..p },
            ),
            assigns: ring_of(self.players.len(), order),
            deadline: 0,
            ..self
        }.logged(why)
    }

    /// Somebody is there, and everybody there has a thing.
    pub open spec fn ready(self) -> bool {
        &&& live(self.players).len() > 0
        &&& forall|i: int|
            0 <= i < self.players.len() && !(#[trigger] self.players[i]).off
                ==> self.players[i].thing.len() > 0
    }

    /// Play begun, if the players are ready for it, with the player that chance picks.
    pub open spec fn started(self, pick: int, now: i64, limit: u64) -> StateView {
        if self.ready() {
            let first = live(self.players)[pick];
            StateView { phase: "play"@, turn: first, ..self }.armed(now, limit).logged(
                "Game on. "@ + self.players[first].name + " goes first."@,
            )
        } else {
            self
        }
    }

    /// Somebody is still in the game.
    pub open spec fn goes_on(self) -> bool {
        exists|i: int| 0 <= i < self.players.len() && contends(#[trigger] self.players[i])
    }

    /// With the turn passed on, or the game over where nobody is left to play.
    pub open spec fn passed(self, now: i64, limit: u64) -> StateView {
        if self.goes_on() {
            StateView {
                turn: seek(self.players, self.turn, self.players.len()),
                ..self
            }.armed(now, limit)
        } else {
            StateView { phase: "over"@, deadline: 0, ..self }.logged("Everyone got it. GG."@)
        }
    }

    /// With another player, who gave `name`; white space around it does not count.
    pub open spec fn seated(self, name: Seq<char>) -> StateView {
        StateView {
            players: self.players.push(
                PlayerView {
                    name: called(trimmed(name), self.players.len()),
                    thing: Seq::empty(),
                    done: false,
                    off: false,
                },
            ),
            ..self
        }
    }

    /// Player `me` may do `c` now.
    pub open spec fn accepts(self, me: int, c: CmdView) -> bool {
        if c.cmd == "start"@ {
            me == 0 && self.phase == "lobby"@ && live(self.players).len() >= 2
        } else if c.cmd == "restart"@ {
            me == 0 && self.phase != "lobby"@ && live(self.players).len() >= 2
        } else if c.cmd == "thing"@ {
            &&& self.phase == "assign"@
            &&& trimmed(c.text).len() > 0
            &&& me < self.assigns.len()
            &&& self.assigns[me] >= 0
        } else if c.cmd == "guess"@ || c.cmd == "skip"@ {
            self.phase == "play"@ && me == self.turn
        } else {
            false
        }
    }

    /// In their turn, player `me` guesses.
    pub open spec fn guesses(self, me: int, c: CmdView) -> bool {
        c.cmd == "guess"@ && self.phase == "play"@ && me == self.turn
    }

    /// Player `me` guesses their thing itself, but for the white space around it.
    pub open spec fn names_it(self, me: int, c: CmdView) -> bool {
        &&& self.guesses(me, c)
        &&& trimmed(c.text).len() > 0
        &&& trimmed(c.text) == trimmed(self.players[me].thing)
    }

    /// Player `me` guesses nothing, or has no thing to guess.
    pub open spec fn guesses_blank(self, me: int, c: CmdView) -> bool {
        &&& self.guesses(me, c)
        &&& trimmed(c.text).len() == 0 || trimmed(self.players[me].thing).len() == 0
    }

    /// Whom the command speaks of is there: the player whom `me` names a thing for, or `me`.
    pub open spec fn fit_for(self, me: int, c: CmdView) -> bool {
        self.accepts(me, c) ==> if c.cmd == "thing"@ {
            self.assigns[me] < self.players.len()
        } else if c.cmd == "guess"@ || c.cmd == "skip"@ {
            me < self.players.len()
        } else {
            true
        }
    }

    /// Player `me` is there, and so is the player whom they name a thing for.
    pub open spec fn fit_without(self, me: int) -> bool {
        &&& me < self.players.len()
        &&& self.phase == "assign"@ && me < self.assigns.len() ==> self.assigns[me]
            < self.players.len()
    }

    /// With `thing` for player `who`.
    pub open spec fn named(self, who: int, thing: Seq<char>) -> StateView {
        StateView {
            players: self.players.update(who, PlayerView { thing, ..self.players[who] }),
            ..self
        }
    }

    /// With a guess of player `me` taken down, a hit or not, and the turn passed on.
    pub open spec fn guessed(
        self,
        me: int,
        text: Seq<char>,
        hit: bool,
        now: i64,
        limit: u64,
    ) -> StateView {
        let p = self.players[me];
        if hit {
            StateView {
                players: self.players.update(me, PlayerView { done: true, ..p }),
                ..self
            }.logged(p.name + " got it: "@ + p.thing + " ✓"@).passed(now, limit)
        } else {
            self.logged(p.name + " guessed \""@ + text + "\" — nope."@).passed(now, limit)
        }
    }

    /// After player `me` did `c`.
    pub open spec fn applied(self, me: int, c: CmdView, by: ChanceView, limit: u64) -> StateView {
        if !self.accepts(me, c) {
            self
        } else if c.cmd == "start"@ {
            self.redrawn("Assign phase — everyone name the thing for their target."@, by.order)
        } else if c.cmd == "restart"@ {
            StateView { log: Seq::empty(), ..self }.redrawn(
                "New round — assign again."@,
                by.order,
            )
        } else if c.cmd == "thing"@ {
            self.named(self.assigns[me] as int, c.text).started(by.pick, by.now, limit)
        } else if c.cmd == "skip"@ {
            self.logged(self.players[me].name + " passed."@).passed(by.now, limit)
        } else {
            self.guessed(me, c.text, counts(c.text, self.players[me].thing), by.now, limit)
        }
    }

    /// With player `me` gone.
    pub open spec fn dropped(self, me: int) -> StateView {
        StateView {
            players: self.players.update(me, PlayerView { off: true, ..self.players[me] }),
            ..self
        }.logged(self.players[me].name + " dropped."@)
    }

    /// Player `me` has a thing to name and has not named it.
    pub open spec fn owes(self, me: int) -> bool {
        &&& me < self.assigns.len()
        &&& self.assigns[me] >= 0
        &&& self.players[self.assigns[me] as int].thing.len() == 0
    }

    /// After player `me` left: who owed a thing leaves a new draw behind, and who had the turn
    /// passes it on.
    pub open spec fn left(self, me: int, by: ChanceView, limit: u64) -> StateView {
        let s = self.dropped(me);
        if s.phase == "assign"@ {
            (if s.owes(me) {
                s.redrawn("Redrawing — they left before assigning."@, by.order)
            } else {
                s
            }).started(by.pick, by.now, limit)
        } else if s.phase == "play"@ && s.turn == me {
            s.passed(by.now, limit)
        } else {
            s
        }
    }

    /// The turn has run out at `now`.
    pub open spec fn overdue(self, now: i64) -> bool {
        self.phase == "play"@ && self.deadline != 0 && now >= self.deadline
    }

    /// If the turn has an end, whose turn it is is there.
    pub open spec fn fit_for_the_clock(self) -> bool {
        self.phase == "play"@ && self.deadline != 0 ==> self.turn < self.players.len()
    }

    /// After the turn ran out; the next one is timed from `now`.
    pub open spec fn timed_out(self, now: i64, limit: u64) -> StateView {
        self.logged(self.players[self.turn].name + " ran out of time."@).passed(now, limit)
    }
}

/// The order of `live` has no repeats and names exactly the players that have not left.
pub proof fn lemma_live(players: Seq<PlayerView>)
    ensures
        lists_live(live(players), players),
        forall|i: int| 0 <= i < live(players).len() ==> 0 <= #[trigger] live(players)[i]
            < players.len(),
        live(players).len() <= players.len(),
    decreases players.len(),
{
    if players.len() > 0 {
        let init = players.drop_last();
        let n = players.len() - 1;
        lemma_live(init);
        assert forall|p: int|
            #![trigger live(players).contains(p)]
            #![trigger players[p]]
            live(players).contains(p) <==> 0 <= p < players.len() && !players[p].off by {
            if p < n {
                assert(p >= 0 ==> init[p] == players[p]);
                if live(init).contains(p) {
                    let k = choose|k: int| 0 <= k < live(init).len() && live(init)[k] == p;
                    assert(live(players)[k] == p);
                }
                if live(players).contains(p) {
                    let k = choose|k: int| 0 <= k < live(players).len() && live(players)[k] == p;
                    assert(live(init)[k] == p);
                }
            } else if p == n {
                if !players[p].off {
                    assert(live(players).last() == p);
                } else if live(players).contains(p) {
                    assert(live(init).contains(p));
                }
            }
        }
        assert forall|i: int, j: int|
            0 <= i < j < live(players).len() implies live(players)[i] != live(players)[j] by {
            assert(live(init).contains(live(players)[i]));
        }
    }
}

/// The clock: the milliseconds from the Unix epoch to now, or from now to the epoch where the
/// clock stands before it. `SystemTime::elapsed` gives the one as its result and the other as its
/// error; nothing is claimed of either.
#[verifier::external_body]
fn since_epoch() -> (t: Result<u128, u128>) {
    match std::time::UNIX_EPOCH.elapsed() {
        Ok(d) => Ok(d.as_millis()),
        Err(e) => Err(e.duration().as_millis()),
    }
}

/// `SliceRandom::shuffle` with `rand::rng()` puts the list in an arbitrary order: the result holds
/// what the list holds, each value as many times.
#[verifier::external_body]
fn shuffled(ids: Vec<usize>) -> (out: Vec<usize>)
    ensures
        out@.to_multiset() == ids@.to_multiset(),
{
    let mut ids = ids;
    ids.shuffle(&mut rand::rng());
    ids
}

/// `Rng::random_range` with `rand::rng()` gives a number of the range `0..n`, which must not be
/// empty.
#[verifier::external_body]
fn random_below(n: usize) -> (k: usize)
    requires
        n > 0,
    ensures
        k < n,
{
    rand::rng().random_range(0..n)
}

/// A reading of the clock in milliseconds since the Unix epoch, negative before it.
pub open spec fn reading(t: Result<u128, u128>) -> i64 {
    match t {
        Ok(d) => d as i64,
        Err(d) => 0i64.wrapping_sub(d as i64),
    }
}

/// A reading of the clock in milliseconds since the Unix epoch, negative before it.
pub fn epoch_ms(t: Result<u128, u128>) -> (ms: i64)
    ensures
        ms == reading(t),
{
    match t {
        Ok(d) => d as i64,
        Err(d) => 0i64.wrapping_sub(d as i64),
    }
}

/// The time now, in milliseconds since the Unix epoch.
pub fn now_ms() -> (ms: i64) {
    epoch_ms(since_epoch())
}

/// The players that have not left, in the order in which they joined.
pub fn live_of(players: &[Player]) -> (ids: Vec<usize>)
    ensures
        ints(ids@) == live(seats(players@)),
{
    let mut ids: Vec<usize> = Vec::new();
    let mut i: usize = 0;
    assert(ints(ids@) =~= live(seats(players@).take(0)));
    while i < players.len()
        invariant
            i <= players.len(),
            ints(ids@) == live(seats(players@).take(i as int)),
        decreases players.len() - i,
    {
        let ghost was = ids@;
        if !players[i].off {
            ids.push(i);
        }
        proof {
            let next = seats(players@).take(i + 1);
            assert(next.drop_last() =~= seats(players@).take(i as int));
            assert(next.last() == players[i as int]@);
            assert(!players[i as int].off ==> ints(ids@) =~= ints(was).push(i as int));
        }
        i += 1;
    }
    assert(seats(players@).take(i as int) =~= seats(players@));
    ids
}

/// Whom each of `n` players names a thing for, when those in `order` sit in a ring.
pub fn ring_from(order: &Vec<usize>, n: usize) -> (a: Vec<i32>)
    requires
        order@.no_duplicates(),
        forall|i: int| 0 <= i < order.len() ==> #[trigger] order[i] < n,
    ensures
        a@ == ring_of(n as nat, ints(order@)),
{
    let mut a: Vec<i32> = Vec::new();
    let mut p: usize = 0;
    while p < n
        invariant
            p <= n,
            a.len() == p,
            forall|q: int| 0 <= q < p ==> a[q] == -1,
        decreases n - p,
    {
        a.push(-1);
        p += 1;
    }
    let len = order.len();
    let ghost o = ints(order@);
    let mut i: usize = 0;
    while i < len
        invariant
            i <= len,
            len == order.len(),
            a.len() == n,
            o == ints(order@),
            order@.no_duplicates(),
            forall|k: int| 0 <= k < order.len() ==> #[trigger] order[k] < n,
            forall|k: int| 0 <= k < i ==> #[trigger] a[o[k]] == o[(k + 1) % (len as int)] as i32,
            forall|q: int| 0 <= q < n && !o.take(i as int).contains(q) ==> a[q] == -1,
        decreases len - i,
    {
        let ghost was = a@;
        let next: usize = if i + 1 == len { 0 } else { i + 1 };
        assert(next == (i + 1) % (len as int)) by {
            if i + 1 < len {
                vstd::arithmetic::div_mod::lemma_small_mod((i + 1) as nat, len as nat);
            } else {
                vstd::arithmetic::div_mod::lemma_mod_self_0(len as int);
            }
        }
        a[order[i]] = order[next] as i32;
        proof {
            assert forall|k: int| 0 <= k < i + 1 implies #[trigger] a[o[k]] == o[(k + 1) % (
            len as int)] as i32 by {
                if k < i {
                    assert(order[k] != order[i as int]);
                    assert(was[o[k]] == o[(k + 1) % (len as int)] as i32);
                }
            }
            assert forall|q: int|
                0 <= q < n && !o.take(i + 1).contains(q) implies a[q] == -1 by {
                assert(o.take(i + 1)[i as int] == order[i as int]);
                if o.take(i as int).contains(q) {
                    let k = choose|k: int| 0 <= k < i && o.take(i as int)[k] == q;
                    assert(o.take(i + 1)[k] == q);
                }
            }
        }
        i += 1;
    }
    proof {
        assert(o.take(len as int) =~= o);
        assert forall|q: int| 0 <= q < n implies a@[q] == ring_of(n as nat, o)[q] by {
            if o.contains(q) {
                let k = o.index_of(q);
                assert(o[k] == q);
            }
        }
        assert(a@ =~= ring_of(n as nat, o));
    }
    a
}

/// A shuffle of the live players lists each of them once.
proof fn lemma_shuffle_lists_live(order: Seq<usize>, ids: Seq<usize>, players: Seq<PlayerView>)
    requires
        order.to_multiset() == ids.to_multiset(),
        ints(ids) == live(players),
    ensures
        lists_live(ints(order), players),
        order.no_duplicates(),
        order.len() == ids.len(),
{
    lemma_live(players);
    assert(ids.no_duplicates()) by {
        assert forall|i: int, j: int| 0 <= i < j < ids.len() implies ids[i] != ids[j] by {
            assert(ints(ids)[i] != ints(ids)[j]);
        }
    }
    order.to_multiset_ensures();
    ids.to_multiset_ensures();
    ids.lemma_multiset_has_no_duplicates();
    assert forall|x: usize| order.to_multiset().contains(x) implies order.to_multiset().count(x)
        == 1 by {
        assert(ids.to_multiset().contains(x));
    }
    order.lemma_multiset_has_no_duplicates_conv();
    assert forall|p: int|
        #![trigger ints(order).contains(p)]
        #![trigger players[p]]
        ints(order).contains(p) <==> 0 <= p < players.len() && !players[p].off by {
        if ints(order).contains(p) {
            let k = choose|k: int| 0 <= k < order.len() && ints(order)[k] == p;
            assert(order.contains(order[k]));
            assert(ids.to_multiset().count(order[k]) > 0);
            let j = choose|j: int| 0 <= j < ids.len() && ids[j] == order[k];
            assert(ints(ids)[j] == p);
        }
        if 0 <= p < players.len() && !players[p].off {
            assert(live(players).contains(p));
            let j = choose|j: int| 0 <= j < ids.len() && ints(ids)[j] == p;
            assert(ids.contains(ids[j]));
            assert(order.to_multiset().count(ids[j]) > 0);
            let k = choose|k: int| 0 <= k < order.len() && order[k] == ids[j];
            assert(ints(order)[k] == p);
        }
    }
    assert(ints(order).no_duplicates());
}

/// Draws whom each player names a thing for: at random, in one ring of those that have not left.
pub fn ring(players: &[Player]) -> (a: Vec<i32>)
    ensures
        exists|order: Seq<int>| #[trigger]
            lists_live(order, seats(players@)) && a@ == ring_of(players.len() as nat, order),
{
    let ids = live_of(players);
    let ghost was = ids@;
    let order = shuffled(ids);
    proof {
        lemma_shuffle_lists_live(order@, was, seats(players@));
        assert forall|i: int| 0 <= i < order.len() implies #[trigger] order[i]
            < players.len() by {
            assert(ints(order@).contains(ints(order@)[i]));
        }
    }
    ring_from(&order, players.len())
}

/// Reads the clock and draws an order and a choice among the players that have not left.
pub fn draw(players: &[Player]) -> (by: Chance)
    ensures
        by@.fits(seats(players@)),
{
    let ids = live_of(players);
    let n = ids.len();
    let ghost was = ids@;
    let pick: usize = if n > 0 { random_below(n) } else { 0 };
    let order = shuffled(ids);
    proof {
        lemma_shuffle_lists_live(order@, was, seats(players@));
        assert(ints(was).len() == n);
    }
    Chance { order, pick, now: now_ms() }
}

/// Whether `g` counts as `t`, both in lower case and without white space around them.
pub fn close_enough(g: &str, t: &str) -> (yes: bool)
    ensures
        yes == close(g@, t@),
{
    if g.is_empty() || t.is_empty() {
        return false;
    }
    same(g, t) || (width(g) > 3 && contains(t, g)) || (width(t) > 3 && contains(g, t))
}

/// Whether a guess counts, whatever its case and the white space around it.
pub fn matches(guess: &str, target: &str) -> (yes: bool)
    ensures
        yes == counts(guess@, target@),
        trimmed(guess@).len() == 0 || trimmed(target@).len() == 0 ==> !yes,
        trimmed(guess@).len() > 0 && trimmed(guess@) == trimmed(target@) ==> yes,
{
    let g = trim(guess).to_lowercase();
    let t = trim(target).to_lowercase();
    close_enough(&g, &t)
}

/// The host of a game. `conns` are the players whom it can reach; `limit` is how long a turn lasts,
/// in milliseconds; `outbox` is what has yet to be sent.
pub struct Host {
    pub state: State,
    pub conns: Vec<usize>,
    pub limit: u64,
    pub outbox: Vec<Update>,
}

/// What a `Host` holds.
#[verifier::ext_equal]
pub struct HostView {
    pub state: StateView,
    pub conns: Seq<usize>,
    pub limit: u64,
    pub outbox: Seq<UpdateView>,
}

impl View for Host {
    type V = HostView;

    open spec fn view(&self) -> HostView {
        HostView {
            state: self.state@,
            conns: self.conns@,
            limit: self.limit,
            outbox: letters_out(self.outbox@),
        }
    }
}

/// The game as it is told to each of `conns`, each with their own place in it.
pub open spec fn updates(state: StateView, conns: Seq<usize>) -> Seq<UpdateView> {
    Seq::new(conns.len(), |i: int| UpdateView { state, you: conns[i] as int })
}

/// Everybody but player `me`.
pub open spec fn other_than(me: usize) -> spec_fn(usize) -> bool {
    |c: usize| c != me
}

impl HostView {
    /// A host without players, in the lobby.
    pub open spec fn fresh() -> HostView {
        HostView {
            state: StateView {
                phase: "lobby"@,
                turn: 0,
                players: Seq::empty(),
                assigns: Seq::empty(),
                log: Seq::empty(),
                deadline: 0,
            },
            conns: Seq::empty(),
            limit: TURN_LIMIT,
            outbox: Seq::empty(),
        }
    }

    /// With the game in state `s`.
    pub open spec fn at(self, s: StateView) -> HostView {
        HostView { state: s, ..self }
    }

    /// With the game told to everybody that can be reached.
    pub open spec fn told(self) -> HostView {
        HostView { outbox: self.outbox + updates(self.state, self.conns), ..self }
    }

    /// With nothing left to be sent.
    pub open spec fn emptied(self) -> HostView {
        HostView { outbox: Seq::empty(), ..self }
    }

    /// Without the connection of player `me`.
    pub open spec fn cut_off(self, me: usize) -> HostView {
        HostView { conns: self.conns.filter(other_than(me)), ..self }
    }

    /// With a connection of player `me`, in place of another that they had.
    pub open spec fn linked_to(self, me: usize) -> HostView {
        HostView {
            conns: if self.conns.contains(me) {
                self.conns
            } else {
                self.conns.push(me)
            },
            ..self
        }
    }

    /// After another player, who gave `name`, took a seat.
    pub open spec fn joined(self, name: Seq<char>, conn: bool) -> HostView {
        let s = self.at(self.state.seated(name));
        (if conn {
            s.linked_to(self.state.players.len() as usize)
        } else {
            s
        }).told()
    }

    /// After player `me` asked for `c`: what is not accepted changes nothing and tells nobody.
    pub open spec fn applied(self, me: int, c: CmdView, by: ChanceView) -> HostView {
        if self.state.accepts(me, c) {
            self.at(self.state.applied(me, c, by, self.limit)).told()
        } else {
            self
        }
    }

    /// After player `me` left.
    pub open spec fn left(self, me: usize, by: ChanceView) -> HostView {
        self.cut_off(me).at(self.state.left(me as int, by, self.limit)).told()
    }

    /// After a look at the clock, which showed `now`; the next turn is timed from `later`.
    pub open spec fn ticked(self, now: i64, later: i64) -> HostView {
        if self.state.overdue(now) {
            self.at(self.state.timed_out(later, self.limit)).told()
        } else {
            self
        }
    }
}

impl Host {
    /// A host without players, in the lobby.
    pub fn new() -> (h: Host)
        ensures
            h@ == HostView::fresh(),
    {
        let mut state: State = Default::default();
        state.phase = "lobby".to_owned();
        let h = Host { state, conns: Vec::new(), limit: TURN_LIMIT, outbox: Vec::new() };
        assert(h@.outbox =~= Seq::empty());
        h
    }

    /// Puts a line in the log, of which the last lines are kept.
    pub fn log(&mut self, line: &str)
        ensures
            final(self)@ == old(self)@.at(old(self)@.state.logged(line@)),
    {
        self.state.log.push(line.to_owned());
        assert(self@.state.log =~= old(self)@.state.log.push(line@));
        let n = self.state.log.len();
        if n > LOG_KEEP {
            let kept = self.state.log.split_off(n - LOG_KEEP);
            self.state.log = kept;
        }
        assert(self@.state.log =~= old(self)@.state.logged(line@).log);
    }

    fn contenders(&self) -> (n: usize)
        ensures
            n == contenders(self@.state.players),
    {
        let ghost all = self@.state.players;
        let mut n: usize = 0;
        let mut i: usize = 0;
        assert(all.take(0) =~= Seq::empty());
        while i < self.state.players.len()
            invariant
                i <= self.state.players.len(),
                n <= i,
                all == self@.state.players,
                n == contenders(all.take(i as int)),
            decreases self.state.players.len() - i,
        {
            assert(all.take(i + 1).drop_last() =~= all.take(i as int));
            assert(all.take(i + 1).last() == self.state.players[i as int]@);
            if !self.state.players[i].done && !self.state.players[i].off {
                n += 1;
            }
            i += 1;
        }
        assert(all.take(i as int) =~= all);
        n
    }

    fn any_contender(&self) -> (yes: bool)
        ensures
            yes == self@.state.goes_on(),
    {
        let mut i: usize = 0;
        while i < self.state.players.len()
            invariant
                i <= self.state.players.len(),
                forall|j: int| 0 <= j < i ==> !contends(#[trigger] self@.state.players[j]),
            decreases self.state.players.len() - i,
        {
            if !self.state.players[i].done && !self.state.players[i].off {
                assert(contends(self@.state.players[i as int]));
                return true;
            }
            i += 1;
        }
        false
    }

    fn arm(&mut self, now: i64)
        ensures
            final(self)@ == old(self)@.at(old(self)@.state.armed(now, old(self).limit)),
    {
        self.state.deadline = if self.contenders() > 1 {
            now.wrapping_add_unsigned(self.limit)
        } else {
            0
        };
    }

    /// Tells the game to everybody that can be reached.
    pub fn broadcast(&mut self)
        ensures
            final(self)@ == old(self)@.told(),
    {
        let mut i: usize = 0;
        let ghost was = self@;
        while i < self.conns.len()
            invariant
                i <= self.conns.len(),
                was == old(self)@,
                self@.state == was.state,
                self@.conns == was.conns,
                self.limit == was.limit,
                self@.outbox == was.outbox + updates(was.state, was.conns).take(i as int),
            decreases self.conns.len() - i,
        {
            let ghost sent = self@.outbox;
            self.outbox.push(Update { state: self.state.clone(), you: self.conns[i] });
            proof {
                let all = updates(was.state, was.conns);
                assert(self@.outbox =~= sent.push(all[i as int]));
                assert(all.take(i + 1) =~= all.take(i as int).push(all[i as int]));
                assert(self@.outbox =~= was.outbox + all.take(i + 1));
            }
            i += 1;
        }
        proof {
            let all = updates(was.state, was.conns);
            assert(all.take(i as int) =~= all);
        }
    }

    /// Passes the turn on, timed from `now`, or ends the game where nobody is left to play.
    pub fn next_turn_at(&mut self, now: i64)
        requires
            old(self)@.state.goes_on() ==> old(self).state.turn < usize::MAX,
        ensures
            final(self)@ == old(self)@.at(old(self)@.state.passed(now, old(self).limit)),
    {
        if !self.any_contender() {
            self.state.phase = "over".to_owned();
            self.state.deadline = 0;
            self.log("Everyone got it. GG.");
            return;
        }
        let n = self.state.players.len();
        let mut t: usize = self.state.turn;
        let mut k: usize = n;
        let ghost all = self@.state.players;
        let ghost end = seek(all, t as int, n as nat);
        while k > 0
            invariant_except_break
                end == seek(all, t as int, k as nat),
            invariant
                k <= n,
                n > 0,
                n == self.state.players.len(),
                all == self@.state.players,
                t < usize::MAX,
                self@ == old(self)@,
            ensures
                t == end,
                self@ == old(self)@,
            decreases k,
        {
            t = (t + 1) % n;
            if !self.state.players[t].done && !self.state.players[t].off {
                assert(contends(all[t as int]));
                break;
            }
            assert(!contends(all[t as int]));
            k -= 1;
        }
        self.state.turn = t;
        self.arm(now);
    }

    /// Passes the turn on, or ends the game where nobody is left to play.
    pub fn next_turn(&mut self)
        requires
            old(self)@.state.goes_on() ==> old(self).state.turn < usize::MAX,
        ensures
            exists|now: i64| final(self)@ == old(self)@.at(
                #[trigger] old(self)@.state.passed(now, old(self).limit),
            ),
    {
        self.next_turn_at(now_ms());
    }

    /// Clears the board and draws anew, those in `order` in a ring.
    pub fn new_round_with(&mut self, why: &str, order: &Vec<usize>)
        requires
            lists_live(ints(order@), old(self)@.state.players),
        ensures
            final(self)@ == old(self)@.at(old(self)@.state.redrawn(why@, ints(order@))),
    {
        let ghost was = self@.state.players;
        let ghost clean = |p: PlayerView|
            PlayerView { thing: Seq::<char>::empty(), done: false, ..p };
        let n = self.state.players.len();
        let mut i: usize = 0;
        while i < n
            invariant
                i <= n,
                n == self.state.players.len(),
                was == old(self)@.state.players,
                n == was.len(),
                clean == (|p: PlayerView|
                    PlayerView { thing: Seq::<char>::empty(), done: false, ..p }),
                self@ == old(self)@.at(
                    StateView { players: self@.state.players, ..old(self)@.state },
                ),
                forall|j: int| 0 <= j < i ==> #[trigger] self@.state.players[j] == clean(was[j]),
                forall|j: int| i <= j < n ==> #[trigger] self@.state.players[j] == was[j],
            decreases n - i,
        {
            let ghost before = self@.state.players;
            self.state.players[i].thing = String::new();
            self.state.players[i].done = false;
            assert(before[i as int] == was[i as int]);
            assert(self.state.players[i as int]@ =~= clean(was[i as int]));
            assert(self@.state.players =~= before.update(i as int, clean(was[i as int])));
            i += 1;
        }
        proof {
            assert(self@.state.players =~= was.map_values(clean));
            assert(order@.no_duplicates()) by {
                assert forall|a: int, b: int| 0 <= a < b < order.len() implies order[a]
                    != order[b] by {
                    assert(ints(order@)[a] != ints(order@)[b]);
                }
            }
            assert forall|k: int| 0 <= k < order.len() implies #[trigger] order[k] < n by {
                assert(ints(order@).contains(ints(order@)[k]));
            }
        }
        self.state.phase = "assign".to_owned();
        self.state.assigns = ring_from(order, n);
        self.state.deadline = 0;
        self.log(why);
    }

    fn ready(&self) -> (yes: bool)
        ensures
            yes == self@.state.ready(),
    {
        if live_of(&self.state.players).len() == 0 {
            return false;
        }
        let mut i: usize = 0;
        while i < self.state.players.len()
            invariant
                i <= self.state.players.len(),
                forall|j: int|
                    0 <= j < i && !(#[trigger] self@.state.players[j]).off
                        ==> self@.state.players[j].thing.len() > 0,
            decreases self.state.players.len() - i,
        {
            if self.state.players[i].thing.as_str().is_empty() && !self.state.players[i].off {
                assert(!self@.state.players[i as int].off);
                return false;
            }
            i += 1;
        }
        true
    }

    /// Begins play, timed from `now`, if everybody there has a thing; `pick` says who goes first.
    pub fn start_play_with(&mut self, pick: usize, now: i64)
        requires
            live(old(self)@.state.players).len() > 0 ==> pick < live(
                old(self)@.state.players,
            ).len(),
        ensures
            final(self)@ == old(self)@.at(
                old(self)@.state.started(pick as int, now, old(self).limit),
            ),
    {
        if !self.ready() {
            return;
        }
        let ids = live_of(&self.state.players);
        proof {
            lemma_live(self@.state.players);
            assert(ints(ids@)[pick as int] == live(self@.state.players)[pick as int]);
        }
        self.state.phase = "play".to_owned();
        self.state.turn = ids[pick];
        self.arm(now);
        let line = plus(
            &plus("Game on. ", &self.state.players[self.state.turn].name),
            " goes first.",
        );
        self.log(&line);
    }

    /// Takes down a guess of player `me`, a hit or not, and passes the turn on.
    pub fn guess(&mut self, me: usize, text: &str, hit: bool, now: i64)
        requires
            me < old(self).state.players.len(),
            old(self).state.turn < usize::MAX,
        ensures
            final(self)@ == old(self)@.at(
                old(self)@.state.guessed(me as int, text@, hit, now, old(self).limit),
            ),
    {
        let ghost was = self@.state;
        let name = self.state.players[me].name.clone();
        if hit {
            let thing = self.state.players[me].thing.clone();
            self.state.players[me].done = true;
            assert(self@.state.players =~= was.players.update(
                me as int,
                PlayerView { done: true, ..was.players[me as int] },
            ));
            let line = plus(&plus(&plus(&name, " got it: "), &thing), " ✓");
            self.log(&line);
        } else {
            let line = plus(&plus(&plus(&name, " guessed \""), text), "\" — nope.");
            self.log(&line);
        }
        self.next_turn_at(now);
    }

    fn reaches(&self, me: usize) -> (yes: bool)
        ensures
            yes == self@.conns.contains(me),
    {
        let mut i: usize = 0;
        while i < self.conns.len()
            invariant
                i <= self.conns.len(),
                forall|j: int| 0 <= j < i ==> self.conns[j] != me,
            decreases self.conns.len() - i,
        {
            if self.conns[i] == me {
                assert(self@.conns[i as int] == me);
                return true;
            }
            i += 1;
        }
        false
    }

    /// Seats another player, who gave `name` and can be reached if `conn`; returns their place.
    pub fn join(&mut self, name: String, conn: bool) -> (me: usize)
        ensures
            me == old(self).state.players.len(),
            final(self)@ == old(self)@.joined(name@, conn),
    {
        let ghost was = self@;
        let me = self.state.players.len();
        let ghost wanted = name@;
        let given = trim(&name);
        let name = if given.as_str().is_empty() {
            plus("player", &decimal(me as u128 + 1))
        } else if width(&given) > NAME_MAX {
            let short = cut(&given, 0, NAME_MAX);
            assert(short@ =~= given@.take(NAME_MAX as int));
            short
        } else {
            given
        };
        self.state.players.push(Player { name, thing: String::new(), done: false, off: false });
        assert(self@.state.players =~= was.state.seated(wanted).players);
        if conn && !self.reaches(me) {
            self.conns.push(me);
        }
        self.broadcast();
        me
    }

    /// Does what player `me` asks, if they may, with this chance.
    pub fn apply_with(&mut self, me: usize, c: Cmd, by: Chance)
        requires
            old(self)@.state.fit_for(me as int, c@),
            by@.fits(old(self)@.state.players),
        ensures
            final(self)@ == old(self)@.applied(me as int, c@, by@),
            old(self)@.state.names_it(me as int, c@) ==> final(self)@.state.players[me as int].done,
            old(self)@.state.guesses_blank(me as int, c@) ==> final(self)@.state.players
                == old(self)@.state.players,
    {
        let ghost was = self@;
        proof {
            lemma_commands();
        }
        if same(&c.cmd, "start") {
            if !(me == 0 && same(&self.state.phase, "lobby") && live_of(
                &self.state.players,
            ).len() >= 2) {
                return;
            }
            self.new_round_with(
                "Assign phase — everyone name the thing for their target.",
                &by.order,
            );
        } else if same(&c.cmd, "restart") {
            if !(me == 0 && !same(&self.state.phase, "lobby") && live_of(
                &self.state.players,
            ).len() >= 2) {
                return;
            }
            self.state.log.clear();
            assert(self@.state.log =~= Seq::empty());
            self.new_round_with("New round — assign again.", &by.order);
        } else if same(&c.cmd, "thing") {
            if !(same(&self.state.phase, "assign") && !trim(&c.text).as_str().is_empty() && me
                < self.state.assigns.len() && self.state.assigns[me] >= 0) {
                return;
            }
            let target = self.state.assigns[me] as usize;
            assert(was.state.assigns[me as int] < was.state.players.len());
            proof {
                lemma_live_same(
                    was.state.players,
                    was.state.named(target as int, c.text@).players,
                );
            }
            self.state.players[target].thing = c.text;
            assert(self@.state.players =~= was.state.named(target as int, c@.text).players);
            self.start_play_with(by.pick, by.now);
        } else {
            let skip = same(&c.cmd, "skip");
            if !((skip || same(&c.cmd, "guess")) && same(&self.state.phase, "play") && me
                == self.state.turn) {
                return;
            }
            assert(self.state.turn < self.state.players.len());
            if skip {
                let line = plus(&self.state.players[me].name, " passed.");
                self.log(&line);
                self.next_turn_at(by.now);
            } else {
                let hit = matches(&c.text, &self.state.players[me].thing);
                self.guess(me, &c.text, hit, by.now);
            }
        }
        self.broadcast();
    }

    /// Does what player `me` asks, if they may.
    pub fn apply(&mut self, me: usize, c: Cmd)
        requires
            old(self)@.state.fit_for(me as int, c@),
        ensures
            exists|by: ChanceView| #[trigger]
                by.fits(old(self)@.state.players) && final(self)@ == old(self)@.applied(
                    me as int,
                    c@,
                    by,
                ),
            old(self)@.state.names_it(me as int, c@) ==> final(self)@.state.players[me as int].done,
            old(self)@.state.guesses_blank(me as int, c@) ==> final(self)@.state.players
                == old(self)@.state.players,
    {
        let by = draw(&self.state.players);
        let ghost b = by@;
        self.apply_with(me, c, by);
        assert(b.fits(old(self)@.state.players));
    }

    /// Forgets the connection of player `me`.
    pub fn lost(&mut self, me: usize)
        ensures
            final(self)@ == old(self)@.cut_off(me),
    {
        let mut kept: Vec<usize> = Vec::new();
        let mut i: usize = 0;
        while i < self.conns.len()
            invariant
                i <= self.conns.len(),
                self@ == old(self)@,
                kept@ == self.conns@.take(i as int).filter(other_than(me)),
            decreases self.conns.len() - i,
        {
            reveal(Seq::filter);
            assert(self.conns@.take(i + 1).drop_last() =~= self.conns@.take(i as int));
            if self.conns[i] != me {
                kept.push(self.conns[i]);
            }
            i += 1;
        }
        assert(self.conns@.take(i as int) =~= self.conns@);
        self.conns = kept;
    }

    /// Player `me` leaves, with this chance.
    pub fn leave_with(&mut self, me: usize, by: Chance)
        requires
            old(self)@.state.fit_without(me as int),
            by@.fits(old(self)@.state.dropped(me as int).players),
        ensures
            final(self)@ == old(self)@.left(me, by@),
    {
        let ghost was = self@.state;
        self.lost(me);
        self.state.players[me].off = true;
        assert(self@.state.players =~= was.dropped(me as int).players);
        let line = plus(&self.state.players[me].name, " dropped.");
        self.log(&line);
        if same(&self.state.phase, "assign") {
            let owed: i32 = if me < self.state.assigns.len() { self.state.assigns[me] } else { -1 };
            if owed >= 0 {
                assert(was.assigns[me as int] < was.players.len());
                if self.state.players[owed as usize].thing.as_str().is_empty() {
                    let ghost before = self@.state.players;
                    self.new_round_with("Redrawing — they left before assigning.", &by.order);
                    proof {
                        lemma_live_same(before, self@.state.players);
                    }
                }
            }
            self.start_play_with(by.pick, by.now);
        } else if same(&self.state.phase, "play") && self.state.turn == me {
            assert(self@.state.players.len() == self.state.players.len());
            self.next_turn_at(by.now);
        }
        self.broadcast();
    }

    /// Player `me` leaves.
    pub fn leave(&mut self, me: usize)
        requires
            old(self)@.state.fit_without(me as int),
        ensures
            exists|by: ChanceView| #[trigger]
                by.fits(old(self)@.state.dropped(me as int).players) && final(self)@
                    == old(self)@.left(me, by),
    {
        let ghost was = self@;
        self.state.players[me].off = true;
        let by = draw(&self.state.players);
        let ghost b = by@;
        proof {
            assert(self@.state.players =~= was.state.dropped(me as int).players);
            assert(self@.state.dropped(me as int).players =~= was.state.dropped(
                me as int,
            ).players);
            assert(self@.left(me, b) == was.left(me, b));
        }
        self.leave_with(me, by);
    }

    /// Ends the turn if its time was up at `now`; the next one is timed from `later`.
    pub fn tick_at(&mut self, now: i64, later: i64)
        requires
            old(self)@.state.overdue(now) ==> old(self).state.turn < old(self).state.players.len(),
        ensures
            final(self)@ == old(self)@.ticked(now, later),
    {
        if !same(&self.state.phase, "play") || self.state.deadline == 0 || now
            < self.state.deadline {
            return;
        }
        assert(self.state.turn < self.state.players.len());
        let line = plus(&self.state.players[self.state.turn].name, " ran out of time.");
        self.log(&line);
        self.next_turn_at(later);
        self.broadcast();
    }

    /// Ends the turn if its time is up.
    pub fn tick(&mut self)
        requires
            old(self)@.state.fit_for_the_clock(),
        ensures
            exists|now: i64, later: i64| final(self)@ == #[trigger] old(self)@.ticked(now, later),
    {
        let now = now_ms();
        self.tick_at(now, now_ms());
    }

    /// Takes what has yet to be sent.
    pub fn take_outbox(&mut self) -> (out: Vec<Update>)
        ensures
            letters_out(out@) == old(self)@.outbox,
            final(self)@ == old(self)@.emptied(),
    {
        let mut out: Vec<Update> = Vec::new();
        out.append(&mut self.outbox);
        assert(out@ =~= old(self).outbox@);
        assert(self@.outbox =~= Seq::empty());
        out
    }
}

/// Who has left decides who is live, nothing else.
pub proof fn lemma_live_same(a: Seq<PlayerView>, b: Seq<PlayerView>)
    requires
        a.len() == b.len(),
        forall|i: int| 0 <= i < a.len() ==> (#[trigger] a[i]).off == b[i].off,
    ensures
        live(a) == live(b),
    decreases a.len(),
{
    if a.len() > 0 {
        lemma_live_same(a.drop_last(), b.drop_last());
    }
}

/// What to do about a line that came in.
pub enum Next {
    /// Close the connection.
    HangUp,
    /// Seat the player, who gave this name.
    Join { name: String },
    /// Do what the player in this place asks.
    Apply { me: usize, cmd: Cmd },
}

/// What a `Next` holds.
#[verifier::ext_equal]
pub enum NextView {
    HangUp,
    Join { name: Seq<char> },
    Apply { me: usize, cmd: CmdView },
}

impl View for Next {
    type V = NextView;

    open spec fn view(&self) -> NextView {
        match self {
            Next::HangUp => NextView::HangUp,
            Next::Join { name } => NextView::Join { name: name@ },
            Next::Apply { me, cmd } => NextView::Apply { me: *me, cmd: cmd@ },
        }
    }
}

/// What to do about `c` from a connection whose player sits in place `me`, if they have joined.
pub open spec fn answered(me: Option<usize>, c: CmdView) -> NextView {
    match me {
        None => if c.cmd == "join"@ {
            NextView::Join { name: c.name }
        } else {
            NextView::HangUp
        },
        Some(i) => NextView::Apply { me: i, cmd: c },
    }
}

/// What to do about `cmd` from a connection whose player sits in place `me`, if they have joined:
/// the first command must be to join.
pub fn client(me: Option<usize>, cmd: Cmd) -> (next: Next)
    ensures
        next@ == answered(me, cmd@),
{
    match me {
        None => {
            if same(&cmd.cmd, "join") {
                Next::Join { name: cmd.name }
            } else {
                Next::HangUp
            }
        },
        Some(i) => Next::Apply { me: i, cmd },
    }
}

impl State {
    /// Whether what the players and the turn point at is there.
    pub fn is_sound(&self) -> (yes: bool)
        ensures
            yes == self@.wf(),
    {
        let n = self.players.len();
        let mut i: usize = 0;
        while i < self.assigns.len()
            invariant
                i <= self.assigns.len(),
                n == self.players.len(),
                forall|j: int| 0 <= j < i ==> #[trigger] self@.assigns[j] < n,
            decreases self.assigns.len() - i,
        {
            if self.assigns[i] >= 0 && self.assigns[i] as usize >= n {
                assert(self@.assigns[i as int] >= self@.players.len());
                return false;
            }
            i += 1;
        }
        !same(&self.phase, "play") || self.turn < n
    }
}

} // verus!
