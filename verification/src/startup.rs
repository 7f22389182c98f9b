//! How the program starts: its arguments, its addresses and whom it connects to.

use crate::app::maybe;
use crate::game::{Cmd, CmdView};
use crate::text::{
    begins, contains, cut, occurs, plus, same, starts_with, trim, trimmed, views, width,
};
use vstd::prelude::*;
use vstd::utf8::encode_utf8;

verus! {

/// What the arguments ask for.
pub enum Start {
    /// To be told how the program is used.
    Help,
    /// To play: at the address, or as the host at the port.
    Play { port: String, addr: Option<String>, hide_notes: bool },
}

/// What a `Start` holds.
#[verifier::ext_equal]
pub enum StartView {
    Help,
    Play { port: Seq<char>, addr: Option<Seq<char>>, hide_notes: bool },
}

impl View for Start {
    type V = StartView;

    open spec fn view(&self) -> StartView {
        match self {
            Start::Help => StartView::Help,
            Start::Play { port, addr, hide_notes } => StartView::Play {
                port: port@,
                addr: maybe(*addr),
                hide_notes: *hide_notes,
            },
        }
    }
}

/// `a` as an address: with `port` where it has none.
pub open spec fn address(a: Seq<char>, port: Seq<char>) -> Seq<char> {
    if occurs(":"@, a) {
        a
    } else {
        a + ":"@ + port
    }
}

/// What `args` ask for, those before them having asked for `port`, `addr` and `hide_notes`.
pub open spec fn asked(
    port: Seq<char>,
    addr: Option<Seq<char>>,
    hide_notes: bool,
    args: Seq<Seq<char>>,
) -> StartView
    decreases args.len(),
{
    if args.len() == 0 {
        StartView::Play { port, addr, hide_notes }
    } else {
        let a = args[0];
        let rest = args.drop_first();
        if a == "--hide-notes"@ {
            asked(port, addr, true, rest)
        } else if a == "-port"@ || a == "--port"@ {
            if rest.len() == 0 {
                asked(port, addr, hide_notes, rest)
            } else {
                asked(rest[0], addr, hide_notes, rest.drop_first())
            }
        } else if a == "-h"@ || a == "--help"@ {
            StartView::Help
        } else {
            asked(port, Some(address(a, port)), hide_notes, rest)
        }
    }
}

/// What `args` ask for: without any, to host at port 7777 and see the notes.
pub open spec fn wanted(args: Seq<Seq<char>>) -> StartView {
    asked("7777"@, None, false, args)
}

/// What stands behind the first `sep` in `s`; nothing if it is not there.
pub open spec fn behind(s: Seq<char>, sep: Seq<char>) -> Seq<char>
    decreases s.len(),
{
    if begins(s, sep) {
        s.skip(sep.len() as int)
    } else if s.len() == 0 {
        Seq::empty()
    } else {
        behind(s.drop_first(), sep)
    }
}

/// The address in the reply `resp`: the body of it, without white space around it, if there is
/// something to it and no more than an address has.
pub open spec fn told_ip(resp: Seq<char>) -> Option<Seq<char>> {
    let body = trimmed(behind(resp, "\r\n\r\n"@));
    if body.len() > 0 && encode_utf8(body).len() < 46 {
        Some(body)
    } else {
        None
    }
}

/// Reads the arguments, without the name of the program.
pub fn arguments(args: &Vec<String>) -> (start: Start)
    ensures
        start@ == wanted(views(args@)),
{
    let mut port = "7777".to_owned();
    let mut addr: Option<String> = None;
    let mut hide_notes = false;
    let mut i: usize = 0;
    let ghost all = views(args@);
    assert(all.skip(0) =~= all);
    while i < args.len()
        invariant
            i <= args.len(),
            all == views(args@),
            asked(port@, maybe(addr), hide_notes, all.skip(i as int)) == asked(
                "7777"@,
                None,
                false,
                all,
            ),
        decreases args.len() - i,
    {
        let a = &args[i];
        let ghost left = all.skip(i as int);
        proof {
            assert(left[0] == a@);
            assert(left.drop_first() =~= all.skip(i + 1));
        }
        i += 1;
        if same(a, "--hide-notes") {
            hide_notes = true;
        } else if same(a, "-port") || same(a, "--port") {
            if i < args.len() {
                assert(all.skip(i as int)[0] == args[i as int]@);
                assert(all.skip(i as int).drop_first() =~= all.skip(i + 1));
                port = args[i].clone();
                i += 1;
            }
        } else if same(a, "-h") || same(a, "--help") {
            return Start::Help;
        } else {
            addr = Some(if contains(a, ":") { a.clone() } else { plus(&plus(a, ":"), &port) });
        }
    }
    assert(all.skip(i as int) =~= Seq::empty());
    Start::Play { port, addr, hide_notes }
}

/// What stands behind the first `sep` in `s`; nothing if it is not there.
pub fn after(s: &str, sep: &str) -> (rest: String)
    ensures
        rest@ == behind(s@, sep@),
{
    let n = width(s);
    let k = width(sep);
    let mut i: usize = 0;
    assert(s@.skip(0) =~= s@);
    while i <= n
        invariant
            i <= n,
            n == s@.len(),
            k == sep@.len(),
            behind(s@.skip(i as int), sep@) == behind(s@, sep@),
        decreases n - i,
    {
        let tail = cut(s, i, n);
        assert(tail@ =~= s@.skip(i as int));
        if starts_with(&tail, sep) {
            let rest = cut(&tail, k, n);
            assert(rest@ =~= tail@.skip(k as int));
            return rest;
        }
        if i == n {
            return String::new();
        }
        assert(tail@.drop_first() =~= s@.skip(i + 1));
        i += 1;
    }
    String::new()
}

/// The address in the reply `resp` of a service that tells it: the body of the reply, if it could
/// be an address.
pub fn public_ip(resp: &str) -> (ip: Option<String>)
    ensures
        maybe(ip) == told_ip(resp@),
{
    let ip = trim(&after(resp, "\r\n\r\n"));
    if !ip.as_str().is_empty() && ip.as_str().as_bytes().len() < 46 {
        Some(ip)
    } else {
        None
    }
}

/// How a player gets into a game: where to listen first, if they host it, where to connect, and
/// what to say there.
pub struct Plan {
    pub listen: Option<String>,
    pub target: String,
    pub hello: Cmd,
}

/// What a `Plan` holds.
#[verifier::ext_equal]
pub struct PlanView {
    pub listen: Option<Seq<char>>,
    pub target: Seq<char>,
    pub hello: CmdView,
}

impl View for Plan {
    type V = PlanView;

    open spec fn view(&self) -> PlanView {
        PlanView { listen: maybe(self.listen), target: self.target@, hello: self.hello@ }
    }
}

/// How a player called `name` gets into the game at `addr` or, without one, hosts it at `port`.
pub open spec fn planned(addr: Option<Seq<char>>, port: Seq<char>, name: Seq<char>) -> PlanView {
    PlanView {
        listen: match addr {
            Some(_) => None,
            None => Some("0.0.0.0:"@ + port),
        },
        target: match addr {
            Some(a) => a,
            None => "127.0.0.1:"@ + port,
        },
        hello: CmdView { cmd: "join"@, name, text: Seq::empty() },
    }
}

/// How a player called `name` gets into the game at `addr` or, without one, hosts it at `port`.
pub fn plan(addr: &Option<String>, port: &str, name: &str) -> (p: Plan)
    ensures
        p@ == planned(maybe(*addr), port@, name@),
{
    let hello = Cmd { cmd: "join".to_owned(), name: name.to_owned(), text: String::new() };
    match addr {
        Some(a) => Plan { listen: None, target: a.clone(), hello },
        None => Plan {
            listen: Some(plus("0.0.0.0:", port)),
            target: plus("127.0.0.1:", port),
            hello,
        },
    }
}

/// An address and a port, as other players give them.
pub open spec fn address_of(ip: Seq<char>, port: Seq<char>) -> Seq<char> {
    ip + ":"@ + port
}

/// An address and a port, as other players give them.
pub fn endpoint(ip: &str, port: &str) -> (at: String)
    ensures
        at@ == address_of(ip@, port@),
{
    plus(&plus(ip, ":"), port)
}

} // verus!
