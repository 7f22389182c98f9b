//! What the host and the players tell each other.

use crate::text::views;
use vstd::prelude::*;

verus! {

/// A player: their name, the thing that they are, whether they have guessed it and whether they
/// have left.
pub struct Player {
    pub name: String,
    pub thing: String,
    pub done: bool,
    pub off: bool,
}

/// A game. `assigns[i]` is the player whom player `i` names a thing for, or negative for none;
/// `deadline` is when the turn ends, in milliseconds since the epoch, or 0 for never.
pub struct State {
    pub phase: String,
    pub turn: usize,
    pub players: Vec<Player>,
    pub assigns: Vec<i32>,
    pub log: Vec<String>,
    pub deadline: i64,
}

/// What a player asks of the host.
pub struct Cmd {
    pub cmd: String,
    pub name: String,
    pub text: String,
}

/// What the host tells player `you`.
pub struct Update {
    pub state: State,
    pub you: usize,
}

#[verifier::ext_equal]
pub struct PlayerView {
    pub name: Seq<char>,
    pub thing: Seq<char>,
    pub done: bool,
    pub off: bool,
}

#[verifier::ext_equal]
pub struct StateView {
    pub phase: Seq<char>,
    pub turn: int,
    pub players: Seq<PlayerView>,
    pub assigns: Seq<i32>,
    pub log: Seq<Seq<char>>,
    pub deadline: i64,
}

#[verifier::ext_equal]
pub struct CmdView {
    pub cmd: Seq<char>,
    pub name: Seq<char>,
    pub text: Seq<char>,
}

#[verifier::ext_equal]
pub struct UpdateView {
    pub state: StateView,
    pub you: int,
}

/// The views of a list of players.
pub open spec fn seats(v: Seq<Player>) -> Seq<PlayerView> {
    Seq::new(v.len(), |i: int| v[i]@)
}

/// The views of a list of updates.
pub open spec fn letters_out(v: Seq<Update>) -> Seq<UpdateView> {
    Seq::new(v.len(), |i: int| v[i]@)
}

impl View for Player {
    type V = PlayerView;

    open spec fn view(&self) -> PlayerView {
        PlayerView { name: self.name@, thing: self.thing@, done: self.done, off: self.off }
    }
}

impl View for State {
    type V = StateView;

    open spec fn view(&self) -> StateView {
        StateView {
            phase: self.phase@,
            turn: self.turn as int,
            players: seats(self.players@),
            assigns: self.assigns@,
            log: views(self.log@),
            deadline: self.deadline,
        }
    }
}

impl View for Cmd {
    type V = CmdView;

    open spec fn view(&self) -> CmdView {
        CmdView { cmd: self.cmd@, name: self.name@, text: self.text@ }
    }
}

impl View for Update {
    type V = UpdateView;

    open spec fn view(&self) -> UpdateView {
        UpdateView { state: self.state@, you: self.you as int }
    }
}

impl Default for Player {
    /// A player without a name or a thing.
    fn default() -> (p: Player)
        ensures
            p@ == (PlayerView { name: Seq::empty(), thing: Seq::empty(), done: false, off: false }),
    {
        Player { name: String::new(), thing: String::new(), done: false, off: false }
    }
}

impl Default for State {
    /// A game without players, in no phase.
    fn default() -> (s: State)
        ensures
            s@ == (StateView {
                phase: Seq::empty(),
                turn: 0,
                players: Seq::empty(),
                assigns: Seq::empty(),
                log: Seq::empty(),
                deadline: 0,
            }),
    {
        let s = State {
            phase: String::new(),
            turn: 0,
            players: Vec::new(),
            assigns: Vec::new(),
            log: Vec::new(),
            deadline: 0,
        };
        assert(s@.players =~= Seq::empty());
        assert(s@.log =~= Seq::empty());
        s
    }
}

impl Default for Cmd {
    /// An empty command.
    fn default() -> (c: Cmd)
        ensures
            c@ == (CmdView { cmd: Seq::empty(), name: Seq::empty(), text: Seq::empty() }),
    {
        Cmd { cmd: String::new(), name: String::new(), text: String::new() }
    }
}

impl Clone for Player {
    fn clone(&self) -> (p: Player)
        ensures
            p@ == self@,
    {
        Player {
            name: self.name.clone(),
            thing: self.thing.clone(),
            done: self.done,
            off: self.off,
        }
    }
}

impl Clone for State {
    fn clone(&self) -> (s: State)
        ensures
            s@ == self@,
    {
        let s = State {
            phase: self.phase.clone(),
            turn: self.turn,
            players: self.players.clone(),
            assigns: self.assigns.clone(),
            log: self.log.clone(),
            deadline: self.deadline,
        };
        proof {
            assert forall|i: int| 0 <= i < self.players.len() implies s.players[i]@
                == self.players[i]@ by {
                assert(cloned::<Player>(self.players[i], s.players[i]));
            }
            assert forall|i: int| 0 <= i < self.log.len() implies s.log[i]@ == self.log[i]@ by {
                assert(cloned::<String>(self.log[i], s.log[i]));
            }
            assert(s@.players =~= self@.players);
            assert(s@.log =~= self@.log);
            assert(s@.assigns =~= self@.assigns);
        }
        s
    }
}

} // verus!
