use headband::game::{Cmd, Player, State, Update};
use headband::host::{
    client, close_enough, draw, epoch_ms, live_of, now_ms, ring, ring_from, Chance, Host,
    Next, LOG_KEEP, TURN_LIMIT,
};

fn new_host(names: &[&str]) -> Host {
    let mut h = Host::new();
    for n in names {
        h.join(n.to_string(), false);
    }
    h
}

fn cmd(c: &str, text: &str) -> Cmd {
    Cmd {
        cmd: c.into(),
        text: text.into(),
        ..Default::default()
    }
}

fn wait(ms: i64) {
    let until = now_ms() + ms;
    while now_ms() < until {}
}

fn chance(order: Vec<usize>, pick: usize, now: i64) -> Chance {
    Chance { order, pick, now }
}

#[test]
fn ring_is_a_derangement() {
    for n in [2usize, 3, 7] {
        for _ in 0..200 {
            let a = ring(&vec![Player::default(); n]);
            let mut seen = vec![false; n];
            for (i, &t) in a.iter().enumerate() {
                assert_ne!(t, i as i32, "player {i} drew themselves");
                seen[t as usize] = true;
            }
            assert!(seen.iter().all(|&s| s), "{a:?} misses someone");
        }
    }
}

#[test]
fn dropped_players_leave_the_draw() {
    let players = vec![
        Player::default(),
        Player {
            off: true,
            ..Default::default()
        },
        Player::default(),
        Player::default(),
    ];
    for _ in 0..200 {
        let a = ring(&players);
        assert_eq!(a[1], -1, "a dropped player draws nobody");
        assert!(!a.contains(&1), "a dropped player is drawn by nobody");
    }
}

#[test]
fn plays_a_whole_game() {
    let mut h = new_host(&["ann", "bo", "cy"]);

    h.apply(1, cmd("start", ""));
    assert_eq!(h.state.phase, "lobby", "a guest started the game");
    h.apply(0, cmd("start", ""));
    assert_eq!(h.state.phase, "assign");

    let things = ["Batman", "a duck", "Gandalf"];
    for i in 0..3 {
        h.apply(i, cmd("thing", things[h.state.assigns[i] as usize]));
    }
    assert_eq!(h.state.phase, "play");
    for (i, p) in h.state.players.iter().enumerate() {
        assert_eq!(p.thing, things[i], "player {i} got the wrong thing");
    }
    assert!(h.state.deadline > 0, "play started with no clock");
    h.state.turn = 0;

    h.apply(1, cmd("guess", things[1]));
    assert!(!h.state.players[1].done, "out-of-turn guess landed");

    h.apply(0, cmd("guess", "Sauron"));
    assert!(!h.state.players[0].done);
    assert_eq!(h.state.turn, 1, "a miss passes the turn");

    h.apply(1, cmd("skip", ""));
    assert_eq!(h.state.turn, 2);

    h.apply(2, cmd("guess", "gandalf the grey"));
    assert!(h.state.players[2].done, "close enough should count");
    assert_eq!(h.state.turn, 0, "finished players are skipped");

    h.apply(0, cmd("guess", things[0]));
    h.apply(1, cmd("guess", "duck"));
    assert_eq!(h.state.phase, "over");
    assert_eq!(h.state.deadline, 0, "the clock stops when the game ends");
}

#[test]
fn drop_during_assign_redraws() {
    let mut h = new_host(&["ann", "bo", "cy"]);
    h.apply(0, cmd("start", ""));
    h.apply(0, cmd("thing", "x"));
    h.apply(1, cmd("thing", "y"));
    h.leave(2);

    assert_eq!(h.state.phase, "assign", "should be redrawing");
    assert!(
        h.state.players.iter().all(|p| p.thing.is_empty()),
        "redraw should clear things"
    );
    h.apply(0, cmd("thing", "x"));
    h.apply(1, cmd("thing", "y"));
    assert_eq!(h.state.phase, "play", "the two left should be able to play");
    assert_ne!(h.state.turn, 2, "turn landed on the player who left");
}

#[test]
fn host_restarts_the_round() {
    let mut h = new_host(&["ann", "bo"]);
    h.apply(0, cmd("start", ""));
    h.apply(0, cmd("thing", "x"));
    h.apply(1, cmd("thing", "y"));
    h.state.players[0].done = true;

    h.apply(1, cmd("restart", ""));
    assert_eq!(h.state.phase, "play", "a guest restarted the game");
    h.apply(0, cmd("restart", ""));
    assert_eq!(h.state.phase, "assign");
    assert!(
        h.state
            .players
            .iter()
            .all(|p| p.thing.is_empty() && !p.done),
        "restart should wipe the board"
    );
}

#[test]
fn turn_times_out() {
    let mut h = new_host(&["ann", "bo"]);
    h.limit = 20;
    h.apply(0, cmd("start", ""));
    h.apply(0, cmd("thing", "x"));
    h.apply(1, cmd("thing", "y"));
    let first = h.state.turn;

    h.tick();
    assert_eq!(h.state.turn, first, "fired before the clock ran out");

    wait(40);
    h.tick();
    assert!(
        h.state.log.iter().any(|l| l.contains("ran out of time")),
        "turn never timed out: {:?}",
        h.state.log
    );
    assert_ne!(h.state.turn, first);
}

#[test]
fn last_player_standing_gets_no_clock() {
    let mut h = new_host(&["ann", "bo", "cy"]);
    h.limit = 20;
    h.apply(0, cmd("start", ""));
    let things = ["a", "b", "c"];
    for i in 0..3 {
        h.apply(i, cmd("thing", things[h.state.assigns[i] as usize]));
    }
    assert!(h.state.deadline > 0, "three players should be on the clock");

    h.state.turn = 0;
    h.apply(0, cmd("guess", "a"));
    assert!(h.state.deadline > 0, "two left, clock still runs");

    h.apply(h.state.turn, cmd("guess", things[h.state.turn]));
    assert_eq!(h.state.deadline, 0, "one left, no clock");

    wait(40);
    h.tick();
    assert!(
        !h.state.log.iter().any(|l| l.contains("ran out of time")),
        "timed out the last player: {:?}",
        h.state.log
    );
    assert_eq!(h.state.phase, "play", "game should still be going");
}

#[test]
fn a_ring_follows_its_order() {
    assert_eq!(ring_from(&vec![2, 0, 3], 4), vec![3, -1, 0, 2]);
    assert_eq!(ring_from(&vec![1], 2), vec![-1, 1], "alone in the ring");
    assert_eq!(ring_from(&vec![], 2), vec![-1, -1]);
}

#[test]
fn the_live_are_those_who_stayed() {
    let mut players = vec![Player::default(); 4];
    players[1].off = true;
    players[3].off = true;
    assert_eq!(live_of(&players), vec![0, 2]);
}

#[test]
fn a_draw_lists_everybody_there_once() {
    let mut players = vec![Player::default(); 20];
    players[4].off = true;
    let mut moved = false;
    let mut picks = vec![false; 19];
    for _ in 0..400 {
        let by = draw(&players);
        let mut order = by.order.clone();
        moved |= order != live_of(&players);
        order.sort();
        assert_eq!(order, live_of(&players));
        picks[by.pick] = true;
    }
    assert!(moved, "the order never changed");
    assert!(picks.iter().filter(|&&p| p).count() > 1, "always the same pick");
}

#[test]
fn names_are_trimmed_cut_and_made_up() {
    let h = new_host(&["  ann \t", "   ", "a name that is far too long", "", "sixteen letters!"]);
    let names: Vec<&str> = h.state.players.iter().map(|p| p.name.as_str()).collect();
    assert_eq!(
        names,
        vec!["ann", "player2", "a name that is f", "player4", "sixteen letters!"]
    );
}

#[test]
fn places_are_given_in_order() {
    let mut h = Host::new();
    for i in 0..12 {
        assert_eq!(h.join(String::new(), false), i);
    }
    assert_eq!(h.state.players[9].name, "player10");
    assert_eq!(h.state.players[11].name, "player12");
}

#[test]
fn guesses_count_when_they_are_close() {
    assert!(headband::host::matches("  BATMAN ", "batman"));
    assert!(headband::host::matches("duck", "A Duck"));
    assert!(headband::host::matches("gandalf the grey", "Gandalf"));
    assert!(!headband::host::matches("cat", "a cat on a roof"), "too short to stand in");
    assert!(headband::host::matches("ÉCLAIR", "éclair"), "case is not only ascii");
    assert!(!headband::host::matches("", "x"));
    assert!(!headband::host::matches(" \u{3000}", "x"));
    assert!(!headband::host::matches("x", "  "));
    assert!(!headband::host::matches("superman", "batman"));
}

#[test]
fn closeness_is_the_same_both_ways() {
    for (g, t) in [("duck", "a duck"), ("cat", "a cat"), ("abc", "abc"), ("abcd", "xabcdx")] {
        assert_eq!(close_enough(g, t), close_enough(t, g));
    }
    assert!(close_enough("abcd", "xabcdx"));
    assert!(!close_enough("abc", "xabcx"));
}

#[test]
fn refused_commands_change_nothing_and_tell_nobody() {
    let mut h = Host::new();
    h.join("ann".into(), true);
    h.join("bo".into(), true);
    h.take_outbox();
    for (me, c) in [
        (1, cmd("start", "")),
        (0, cmd("restart", "")),
        (0, cmd("thing", "x")),
        (0, cmd("guess", "x")),
        (0, cmd("skip", "")),
        (0, cmd("dance", "")),
        (7, cmd("start", "")),
    ] {
        h.apply(me, c);
        assert_eq!(h.state.phase, "lobby");
        assert!(h.state.log.is_empty());
        assert!(h.take_outbox().is_empty(), "told somebody");
    }
}

#[test]
fn blank_things_are_refused() {
    let mut h = new_host(&["ann", "bo"]);
    h.apply(0, cmd("start", ""));
    h.apply(0, cmd("thing", " \n "));
    assert!(h.state.players.iter().all(|p| p.thing.is_empty()));
}

#[test]
fn one_player_cannot_start() {
    let mut h = new_host(&["ann"]);
    h.apply(0, cmd("start", ""));
    assert_eq!(h.state.phase, "lobby");
    h.join("bo".into(), false);
    h.leave(1);
    h.apply(0, cmd("start", ""));
    assert_eq!(h.state.phase, "lobby", "who left does not count");
}

#[test]
fn every_connection_is_told_its_own_place() {
    let mut h = Host::new();
    h.join("ann".into(), true);
    h.join("bo".into(), false);
    h.join("cy".into(), true);
    h.take_outbox();
    h.apply(0, cmd("start", ""));
    let out: Vec<Update> = h.take_outbox();
    let you: Vec<usize> = out.iter().map(|u| u.you).collect();
    assert_eq!(you, vec![0, 2]);
    for u in &out {
        assert_eq!(u.state.phase, "assign");
        assert_eq!(u.state.players.len(), 3);
        assert_eq!(u.state.assigns, h.state.assigns);
        assert_eq!(u.state.log, h.state.log);
    }
    h.lost(0);
    h.broadcast();
    let out = h.take_outbox();
    assert_eq!(out.len(), 1);
    assert_eq!(out[0].you, 2);
    h.leave(2);
    assert!(h.take_outbox().is_empty(), "nobody is left to tell");
}

#[test]
fn the_exact_game_with_a_given_chance() {
    let mut h = new_host(&["ann", "bo", "cy"]);
    h.limit = 1_000;
    h.apply_with(0, cmd("start", ""), chance(vec![2, 0, 1], 0, 5));
    assert_eq!(h.state.assigns, vec![1, 2, 0]);
    assert_eq!(
        h.state.log,
        vec!["Assign phase — everyone name the thing for their target."]
    );
    h.apply_with(0, cmd("thing", "duck"), chance(vec![0, 1, 2], 0, 6));
    h.apply_with(1, cmd("thing", "cat"), chance(vec![0, 1, 2], 0, 7));
    assert_eq!(h.state.phase, "assign");
    h.apply_with(2, cmd("thing", "Batman"), chance(vec![0, 1, 2], 1, 8));
    assert_eq!(h.state.phase, "play");
    assert_eq!(h.state.turn, 1);
    assert_eq!(h.state.deadline, 1_008);
    assert_eq!(h.state.players[1].thing, "duck");
    h.apply_with(1, cmd("guess", "goose"), chance(vec![0, 1, 2], 0, 20));
    assert_eq!((h.state.turn, h.state.deadline), (2, 1_020));
    h.apply_with(2, cmd("guess", "a CAT "), chance(vec![0, 1, 2], 0, 21));
    assert!(!h.state.players[2].done, "three letters are too few");
    h.apply_with(0, cmd("guess", "batman!"), chance(vec![0, 1, 2], 0, 30));
    assert!(h.state.players[0].done);
    assert_eq!((h.state.turn, h.state.deadline), (1, 1_030));
    h.apply_with(1, cmd("guess", "duck"), chance(vec![0, 1, 2], 0, 40));
    assert_eq!((h.state.turn, h.state.deadline), (2, 0));
    h.apply_with(2, cmd("skip", ""), chance(vec![0, 1, 2], 0, 50));
    assert_eq!(h.state.turn, 2, "the turn comes back where there is nobody else");
    h.apply_with(2, cmd("guess", "cat"), chance(vec![0, 1, 2], 0, 60));
    assert_eq!(h.state.phase, "over");
    assert_eq!(
        h.state.log[1..],
        [
            "Game on. bo goes first.",
            "bo guessed \"goose\" — nope.",
            "cy guessed \"a CAT \" — nope.",
            "ann got it: Batman ✓",
            "bo got it: duck ✓",
            "cy passed.",
            "cy got it: cat ✓",
            "Everyone got it. GG.",
        ]
    );
}

#[test]
fn a_restart_forgets_the_log() {
    let mut h = new_host(&["ann", "bo"]);
    h.apply(0, cmd("start", ""));
    h.apply(0, cmd("restart", ""));
    assert_eq!(h.state.log, vec!["New round — assign again."]);
}

#[test]
fn leaving_passes_the_turn() {
    let mut h = new_host(&["ann", "bo", "cy"]);
    h.limit = 100;
    h.apply_with(0, cmd("start", ""), chance(vec![0, 1, 2], 0, 0));
    for i in 0..3 {
        h.apply_with(i, cmd("thing", "thing"), chance(vec![0, 1, 2], 0, 0));
    }
    assert_eq!(h.state.turn, 0);
    h.leave_with(1, chance(vec![0, 2], 0, 10));
    assert_eq!((h.state.turn, h.state.deadline), (0, 100), "not their turn");
    h.leave_with(0, chance(vec![2], 0, 20));
    assert_eq!((h.state.turn, h.state.deadline), (2, 0));
    h.leave_with(2, chance(vec![], 0, 30));
    assert_eq!(h.state.phase, "over");
}

#[test]
fn leaving_after_naming_lets_the_rest_play() {
    let mut h = new_host(&["ann", "bo", "cy"]);
    h.apply_with(0, cmd("start", ""), chance(vec![0, 1, 2], 0, 0));
    h.apply_with(0, cmd("thing", "x"), chance(vec![0, 1, 2], 0, 0));
    h.apply_with(2, cmd("thing", "y"), chance(vec![0, 1, 2], 0, 0));
    h.leave_with(2, chance(vec![0, 1], 1, 9));
    assert_eq!(h.state.phase, "play");
    assert_eq!(h.state.turn, 1);
}

#[test]
fn the_clock_acts_only_on_a_turn_that_is_over() {
    let mut h = new_host(&["ann", "bo"]);
    h.limit = 50;
    h.tick_at(1_000_000, 1_000_000);
    assert!(h.state.log.is_empty(), "no game, no clock");
    h.apply_with(0, cmd("start", ""), chance(vec![0, 1], 0, 0));
    h.apply_with(0, cmd("thing", "x"), chance(vec![0, 1], 0, 0));
    h.apply_with(1, cmd("thing", "y"), chance(vec![0, 1], 0, 0));
    h.tick_at(49, 49);
    assert_eq!(h.state.turn, 0);
    h.tick_at(50, 60);
    assert_eq!((h.state.turn, h.state.deadline), (1, 110));
    assert_eq!(h.state.log.last().unwrap(), "ann ran out of time.");
}

#[test]
fn the_log_keeps_its_last_lines() {
    let mut h = Host::new();
    for i in 0..100 {
        h.log(&format!("line {i}"));
    }
    assert_eq!(h.state.log.len(), LOG_KEEP);
    assert_eq!(h.state.log[0], "line 40");
    assert_eq!(h.state.log[59], "line 99");
}

#[test]
fn the_next_turn_is_the_next_contender() {
    let mut h = new_host(&["a", "b", "c", "d"]);
    h.state.phase = "play".into();
    h.state.players[1].done = true;
    h.state.players[2].off = true;
    h.next_turn();
    assert_eq!(h.state.turn, 3);
    h.next_turn();
    assert_eq!(h.state.turn, 0);
    assert!(h.state.deadline > 0);
    assert_eq!(h.limit, TURN_LIMIT);
}

#[test]
fn the_first_command_must_be_to_join() {
    let hello = Cmd {
        cmd: "join".into(),
        name: "ann".into(),
        ..Default::default()
    };
    assert!(matches!(client(None, hello), Next::Join { name } if name == "ann"));
    assert!(matches!(client(None, cmd("start", "")), Next::HangUp));
    assert!(
        matches!(client(Some(3), cmd("join", "x")), Next::Apply { me: 3, cmd: c } if c.text == "x")
    );
}

#[test]
fn the_clock_reads_milliseconds() {
    assert_eq!(epoch_ms(Ok(1_234)), 1_234);
    assert_eq!(epoch_ms(Err(5)), -5);
    assert!(now_ms() > 1_600_000_000_000, "the clock stands");
    let a = now_ms();
    wait(5);
    assert!(now_ms() >= a + 5);
}

#[test]
fn a_sound_game_points_at_its_players() {
    let mut s = State::default();
    assert!(s.is_sound());
    s.phase = "play".into();
    assert!(!s.is_sound(), "nobody has the turn");
    s.players.push(Player::default());
    assert!(s.is_sound());
    s.assigns = vec![-1, 0];
    assert!(s.is_sound());
    s.assigns = vec![1];
    assert!(!s.is_sound());
}

#[test]
fn everybody_keeps_their_place_and_name() {
    let mut h = new_host(&["ann", "bo", "cy"]);
    let names = |h: &Host| -> Vec<String> {
        h.state.players.iter().map(|p| p.name.clone()).collect()
    };
    let off = |h: &Host| -> Vec<bool> { h.state.players.iter().map(|p| p.off).collect() };
    h.apply(0, cmd("start", ""));
    h.leave(1);
    assert_eq!(names(&h), vec!["ann", "bo", "cy"]);
    assert_eq!(off(&h), vec![false, true, false]);
    h.apply(0, cmd("restart", ""));
    assert_eq!(off(&h), vec![false, true, false], "who has left stays away");
    assert_eq!(h.join("dee".into(), false), 3);
    assert_eq!(names(&h), vec!["ann", "bo", "cy", "dee"]);
}

#[test]
fn a_guess_touches_only_who_made_it() {
    let mut h = new_host(&["ann", "bo"]);
    h.state.phase = "play".into();
    h.state.players[0].thing = "duck".into();
    h.state.players[1].thing = "cat".into();
    h.guess(0, "dck", false, 5);
    assert!(h.state.players.iter().all(|p| !p.done));
    h.state.turn = 0;
    h.guess(0, "duck", true, 5);
    assert!(h.state.players[0].done && !h.state.players[1].done);
    assert_eq!(h.state.players[0].thing, "duck");
    assert_eq!(h.state.players[1].thing, "cat");
    assert_eq!(h.state.turn, 1);
}

#[test]
fn a_turn_that_runs_out_costs_nothing_but_the_turn() {
    let mut h = new_host(&["ann", "bo"]);
    h.state.phase = "play".into();
    h.state.players[0].thing = "duck".into();
    h.state.deadline = 10;
    h.tick_at(10, 20);
    assert_eq!(h.state.turn, 1);
    assert_eq!(h.state.players[0].thing, "duck");
    assert!(!h.state.players[0].done);
}

#[test]
fn the_thing_wins_in_any_case() {
    let mut h = new_host(&["ann", "bo"]);
    h.state.phase = "play".into();
    h.state.players[0].thing = "a Duck".into();
    h.apply(0, cmd("guess", "  A dUCK\t"));
    assert!(h.state.players[0].done);
    assert_eq!(h.state.deadline, 0, "one left, no clock");
}

#[test]
fn blank_texts_never_count_and_others_count_as_themselves() {
    for t in ["x", " a Duck ", "ΣΑΣ", "İ", "ǅ", "\u{300}"] {
        assert!(headband::host::matches(t, t), "{t:?}");
        for blank in ["", " ", "\t\u{2003}"] {
            assert!(!headband::host::matches(t, blank) && !headband::host::matches(blank, t));
        }
    }
    for c in (0..=0x10FFFFu32).filter_map(char::from_u32) {
        assert!(!c.to_string().to_lowercase().is_empty());
    }
    assert!(!headband::host::matches("", ""));
}

#[test]
fn a_blank_guess_only_costs_the_turn() {
    let mut h = new_host(&["ann", "bo"]);
    h.state.phase = "play".into();
    h.state.players[0].thing = "duck".into();
    h.apply(0, cmd("guess", "  "));
    assert!(!h.state.players[0].done);
    assert_eq!(h.state.turn, 1);
}

#[test]
fn the_draw_is_one_ring() {
    let mut players = vec![Player::default(); 9];
    players[3].off = true;
    for _ in 0..100 {
        let a = ring(&players);
        for first in live_of(&players) {
            let mut seen = vec![];
            let mut p = first;
            loop {
                seen.push(p);
                p = a[p] as usize;
                if p == first {
                    break;
                }
            }
            seen.sort();
            assert_eq!(seen, live_of(&players));
        }
    }
}

#[test]
fn a_place_taken_again_has_one_connection() {
    let mut h = Host::new();
    h.join("ann".into(), true);
    h.state.players.clear();
    h.take_outbox();
    assert_eq!(h.join("bo".into(), true), 0);
    assert_eq!(h.conns, vec![0]);
    let out = h.take_outbox();
    assert_eq!(out.len(), 1);
    assert_eq!(out[0].state.players[0].name, "bo");
}
