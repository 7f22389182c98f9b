//! What holds of every start.

use crate::startup::{
    address, address_of, asked, behind, planned, told_ip, wanted, Plan, Start,
    StartView,
};
use crate::text::{begins, occurs, trimmed};
use crate::text_laws::what_begins_stands_at_the_start;
use vstd::prelude::*;
use vstd::utf8::encode_utf8;

verus! {

/// The argument says that a port follows.
pub open spec fn port_flag(a: Seq<char>) -> bool {
    a == "-port"@ || a == "--port"@
}

/// The arguments do not end where a port is still to follow.
pub open spec fn complete(args: Seq<Seq<char>>) -> bool {
    args.len() == 0 || !port_flag(args.last())
}

/// The flags are five different words.
pub proof fn lemma_flags()
    ensures
        "--hide-notes"@ != "-port"@,
        "--hide-notes"@ != "--port"@,
        "--hide-notes"@ != "-h"@,
        "--hide-notes"@ != "--help"@,
        "-port"@ != "-h"@,
        "-port"@ != "--help"@,
        "--port"@ != "-h"@,
        "--port"@ != "--help"@,
{
    reveal_strlit("--hide-notes");
    reveal_strlit("-port");
    reveal_strlit("--port");
    reveal_strlit("-h");
    reveal_strlit("--help");
    assert("--hide-notes"@.len() == 12);
    assert("-port"@.len() == 5);
    assert("-h"@.len() == 2);
    assert("--port"@[2] == 'p');
    assert("--help"@[2] == 'h');
}

/// Arguments are read from the first to the last: what comes later is asked on top of what came
/// before, but for help, which ends it.
pub proof fn arguments_are_read_in_order(
    port: Seq<char>,
    addr: Option<Seq<char>>,
    hide: bool,
    a: Seq<Seq<char>>,
    b: Seq<Seq<char>>,
)
    requires
        complete(a),
    ensures
        asked(port, addr, hide, a + b) == (match asked(port, addr, hide, a) {
            StartView::Help => StartView::Help,
            StartView::Play { port: p, addr: d, hide_notes: h } => asked(p, d, h, b),
        }),
    decreases a.len(),
{
    if a.len() == 0 {
        assert(a + b =~= b);
    } else {
        let rest = a.drop_first();
        assert((a + b)[0] == a[0]);
        assert((a + b).drop_first() =~= rest + b);
        assert(rest.len() > 0 ==> rest.last() == a.last());
        if port_flag(a[0]) && a[0] != "--hide-notes"@ {
            assert(rest.len() > 0);
            assert((rest + b)[0] == rest[0]);
            assert((rest + b).drop_first() =~= rest.drop_first() + b);
            assert(rest.drop_first().len() > 0 ==> rest.drop_first().last() == a.last());
            arguments_are_read_in_order(rest[0], addr, hide, rest.drop_first(), b);
        } else if a[0] == "--hide-notes"@ {
            arguments_are_read_in_order(port, addr, true, rest, b);
        } else if a[0] != "-h"@ && a[0] != "--help"@ {
            arguments_are_read_in_order(port, Some(address(a[0], port)), hide, rest, b);
        }
    }
}

/// Asking to hide the notes, anywhere but where a port is to follow, hides them and changes nothing
/// else: not the port, not the address, nor whether help is asked for.
pub proof fn hiding_the_notes_changes_nothing_else(
    port: Seq<char>,
    addr: Option<Seq<char>>,
    hide: bool,
    a: Seq<Seq<char>>,
    b: Seq<Seq<char>>,
)
    requires
        complete(a),
    ensures
        asked(port, addr, hide, a + seq!["--hide-notes"@] + b) == (match asked(
            port,
            addr,
            hide,
            a + b,
        ) {
            StartView::Help => StartView::Help,
            StartView::Play { port: p, addr: d, hide_notes: _ } => StartView::Play {
                port: p,
                addr: d,
                hide_notes: true,
            },
        }),
{
    let flag = seq!["--hide-notes"@];
    lemma_flags();
    assert(a + flag + b =~= a + (flag + b));
    arguments_are_read_in_order(port, addr, hide, a, flag + b);
    arguments_are_read_in_order(port, addr, hide, a, b);
    assert((flag + b)[0] == "--hide-notes"@);
    assert((flag + b).drop_first() =~= b);
    if let StartView::Play { port: p, addr: d, hide_notes: h } = asked(port, addr, hide, a) {
        lemma_hidden_or_not(p, d, h, b);
    }
}

/// Whether the notes were asked to be hidden before makes no other difference.
proof fn lemma_hidden_or_not(
    port: Seq<char>,
    addr: Option<Seq<char>>,
    hide: bool,
    args: Seq<Seq<char>>,
)
    ensures
        asked(port, addr, true, args) == (match asked(port, addr, hide, args) {
            StartView::Help => StartView::Help,
            StartView::Play { port: p, addr: d, hide_notes: _ } => StartView::Play {
                port: p,
                addr: d,
                hide_notes: true,
            },
        }),
    decreases args.len(),
{
    if args.len() > 0 {
        let rest = args.drop_first();
        lemma_hidden_or_not(port, addr, hide, rest);
        lemma_hidden_or_not(port, addr, true, rest);
        if rest.len() > 0 {
            lemma_hidden_or_not(rest[0], addr, hide, rest.drop_first());
        }
        lemma_hidden_or_not(port, Some(address(args[0], port)), hide, rest);
    }
}

/// Without arguments the player hosts at port 7777 and sees the notes, and whatever is asked for is
/// asked on top of that.
pub proof fn a_bare_start_hosts(args: Seq<Seq<char>>)
    ensures
        wanted(Seq::empty()) == (StartView::Play {
            port: "7777"@,
            addr: None,
            hide_notes: false,
        }),
        wanted(args) == asked("7777"@, None, false, args),
{
}

/// Without arguments everything is as it was; a port changes the port alone; a port flag at the end
/// changes nothing; help is help.
pub proof fn flags_change_what_they_name(
    port: Seq<char>,
    addr: Option<Seq<char>>,
    hide: bool,
    flag: Seq<char>,
    value: Seq<char>,
    more: Seq<Seq<char>>,
)
    requires
        port_flag(flag),
    ensures
        asked(port, addr, hide, Seq::empty()) == (StartView::Play { port, addr, hide_notes: hide }),
        asked(port, addr, hide, seq![flag, value]) == (StartView::Play {
            port: value,
            addr,
            hide_notes: hide,
        }),
        asked(port, addr, hide, seq![flag]) == (StartView::Play { port, addr, hide_notes: hide }),
        asked(port, addr, hide, seq!["-h"@] + more) == StartView::Help,
        asked(port, addr, hide, seq!["--help"@] + more) == StartView::Help,
{
    lemma_flags();
    reveal_with_fuel(asked, 3);
    let two = seq![flag, value];
    assert(two.drop_first() =~= seq![value]);
    assert(seq![value].drop_first() =~= Seq::empty());
    assert(seq![flag].drop_first() =~= Seq::empty());
    assert((seq!["-h"@] + more)[0] == "-h"@);
    assert((seq!["--help"@] + more)[0] == "--help"@);
}

/// Anything else is an address, in place of one given before: as it stands if it has a colon, else
/// with the port asked for so far.
pub proof fn anything_else_is_an_address(
    port: Seq<char>,
    addr: Option<Seq<char>>,
    hide: bool,
    at: Seq<char>,
)
    requires
        at != "--hide-notes"@,
        !port_flag(at),
        at != "-h"@,
        at != "--help"@,
    ensures
        asked(port, addr, hide, seq![at]) == (StartView::Play {
            port,
            addr: Some(
                if at.contains(':') {
                    at
                } else {
                    at.push(':') + port
                },
            ),
            hide_notes: hide,
        }),
{
    reveal_with_fuel(asked, 2);
    assert(seq![at].drop_first() =~= Seq::empty());
    reveal_strlit(":");
    assert(":"@ =~= seq![':']);
    if at.contains(':') {
        let k = choose|k: int| 0 <= k < at.len() && at[k] == ':';
        assert(at.subrange(k, k + ":"@.len()) =~= ":"@);
        assert(occurs(":"@, at));
    } else if occurs(":"@, at) {
        let i = choose|i: int|
            0 <= i <= at.len() - ":"@.len() && #[trigger] at.subrange(i, i + ":"@.len()) == ":"@;
        assert(at.subrange(i, i + 1)[0] == ':');
        assert(at[i] == ':');
    }
    assert(at + ":"@ + port =~= at.push(':') + port);
}

/// What stands behind a separator stands behind the first one; without one there is nothing.
pub proof fn what_is_behind_follows_the_first(s: Seq<char>, sep: Seq<char>)
    ensures
        !occurs(sep, s) ==> behind(s, sep).len() == 0,
        occurs(sep, s) ==> exists|a: Seq<char>|
            s == #[trigger] (a + sep) + behind(s, sep) && forall|i: int|
                0 <= i < a.len() ==> #[trigger] s.subrange(i, i + sep.len()) != sep,
    decreases s.len(),
{
    if begins(s, sep) {
        what_begins_stands_at_the_start(sep, Seq::empty(), s);
        assert(s.subrange(0, 0int + sep.len()) == sep);
        let a = Seq::<char>::empty();
        assert(a + sep =~= sep);
        assert(s == (a + sep) + behind(s, sep));
    } else if s.len() > 0 {
        let t = s.drop_first();
        what_is_behind_follows_the_first(t, sep);
        if occurs(sep, s) {
            let i = choose|i: int|
                0 <= i <= s.len() - sep.len() && #[trigger] s.subrange(i, i + sep.len()) == sep;
            assert(i > 0);
            assert(t.subrange(i - 1, i - 1 + sep.len()) =~= s.subrange(i, i + sep.len()));
            assert(occurs(sep, t));
            let b = choose|a: Seq<char>|
                t == #[trigger] (a + sep) + behind(t, sep) && forall|i: int|
                    0 <= i < a.len() ==> #[trigger] t.subrange(i, i + sep.len()) != sep;
            let a = seq![s[0]] + b;
            let rest = behind(s, sep);
            assert(rest == behind(t, sep));
            assert(s =~= seq![s[0]] + t);
            assert((a + sep) + rest =~= seq![s[0]] + ((b + sep) + rest));
            assert(s == (a + sep) + behind(s, sep));
            assert forall|i: int| 0 <= i < a.len() implies #[trigger] s.subrange(i, i + sep.len())
                != sep by {
                if i > 0 {
                    assert(t.subrange(i - 1, i - 1 + sep.len()) =~= s.subrange(i, i + sep.len()));
                }
            }
        } else if occurs(sep, t) {
            let i = choose|i: int|
                0 <= i <= t.len() - sep.len() && #[trigger] t.subrange(i, i + sep.len()) == sep;
            assert(s.subrange(i + 1, i + 1 + sep.len()) =~= t.subrange(i, i + sep.len()));
        }
    } else if occurs(sep, s) {
        assert(s.subrange(0, 0) =~= sep);
        assert(s.subrange(0, sep.len() as int) =~= sep);
    }
}

/// An address that a service tells is the body of its reply, trimmed; a reply without a body, with
/// a blank one or with one too long for an address tells none.
pub proof fn a_told_address_is_the_body(resp: Seq<char>)
    ensures
        ({
            let body = trimmed(behind(resp, "\r\n\r\n"@));
            match told_ip(resp) {
                Some(ip) => ip == body && 0 < ip.len() && encode_utf8(ip).len() <= 45,
                None => body.len() == 0 || encode_utf8(body).len() >= 46,
            }
        }),
{
}

/// Who has an address goes there and listens nowhere; who has none listens at the port, on all of
/// the machine's addresses, and goes there itself. Either way they ask to join under their name.
pub proof fn a_plan_leads_to_the_game(
    addr: Option<Seq<char>>,
    port: Seq<char>,
    name: Seq<char>,
    p: Plan,
)
    ensures
        ({
            let plan = planned(addr, port, name);
            &&& addr matches Some(a) ==> plan.listen is None && plan.target == a
            &&& addr is None ==> plan.listen == Some("0.0.0.0:"@ + port) && plan.target
                == "127.0.0.1:"@ + port
            &&& plan.hello.cmd == "join"@ && plan.hello.name == name && plan.hello.text.len() == 0
        }),
        p.listen is None <==> p@.listen is None,
        p.listen matches Some(at) ==> p@.listen == Some(at@),
        p@.target == p.target@ && p@.hello == p.hello@,
{
}

/// An address and a port have a colon between them and nothing else.
pub proof fn an_endpoint_is_address_and_port(ip: Seq<char>, port: Seq<char>)
    ensures
        address_of(ip, port) == ip.push(':') + port,
{
    reveal_strlit(":");
    assert(":"@ =~= seq![':']);
    assert(ip + ":"@ + port =~= ip.push(':') + port);
}

/// What is asked for is all in the view.
pub proof fn a_start_is_in_its_view(port: String, addr: Option<String>, hide_notes: bool)
    ensures
        (Start::Help)@ == StartView::Help,
        (Start::Play { port, addr, hide_notes })@ == (StartView::Play {
            port: port@,
            addr: match addr {
                Some(a) => Some(a@),
                None => None,
            },
            hide_notes,
        }),
{
}

} // verus!
