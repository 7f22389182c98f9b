use headband::area::Rect;
use headband::startup::{after, arguments, endpoint, plan, public_ip, Start};
use headband::style::{Line, Style};
use headband::text::{
    contains, cut, decimal, letters, lines, pad_end, pad_start, plus, repeat, same, slices, split,
    starts_with, trim, width,
};

#[test]
fn trimming_takes_exactly_the_white_space() {
    for c in (0..=0x10FFFFu32).filter_map(char::from_u32) {
        let s = format!("{c}x{c}");
        assert_eq!(trim(&s), s.trim(), "{:x}", c as u32);
        assert_eq!(trim(&s) == "x", c.is_whitespace());
        let listed = matches!(
            c,
            '\u{9}'..='\u{d}' | ' ' | '\u{85}' | '\u{a0}' | '\u{1680}' | '\u{2000}'..='\u{200a}'
                | '\u{2028}' | '\u{2029}' | '\u{202f}' | '\u{205f}' | '\u{3000}'
        );
        assert_eq!(c.is_whitespace(), listed, "{:x}", c as u32);
    }
    assert_eq!(trim(" \t a b \n"), "a b");
    assert_eq!(trim("   "), "");
}

#[test]
fn text_is_measured_in_characters() {
    assert_eq!(width("héllo"), 5);
    assert_eq!(letters("é✓"), vec!['é', '✓']);
    assert_eq!(cut("héllo", 1, 3), "él");
    assert_eq!(cut("abc", 2, 99), "c");
    assert_eq!(cut("abc", 5, 9), "");
    assert_eq!(cut("abc", 2, 1), "");
}

#[test]
fn text_is_compared_and_searched() {
    assert!(same("é", "é"));
    assert!(!same("a", "b"));
    assert!(!same("a", "ab"));
    assert!(starts_with("abc", "ab"));
    assert!(starts_with("abc", ""));
    assert!(!starts_with("a", "ab"));
    assert!(contains("xabx", "ab"));
    assert!(contains("ab", "ab"));
    assert!(contains("", ""));
    assert!(!contains("ab", "ba"));
    assert!(!contains("a", "ab"));
}

#[test]
fn numbers_are_written_in_decimal() {
    for n in [0u128, 7, 10, 99, 100, 12_345, u64::MAX as u128, u128::MAX] {
        assert_eq!(decimal(n), n.to_string());
    }
}

#[test]
fn text_is_padded_and_split() {
    assert_eq!(pad_end("ab", 4), "ab  ");
    assert_eq!(pad_start("7", 2), " 7");
    assert_eq!(pad_start("123", 2), "123");
    assert_eq!(pad_end("é", 3), format!("{:<3}", "é"));
    assert_eq!(repeat('░', 3), "░░░");
    assert_eq!(plus("a", "b"), "ab");
    for s in ["", " ", "a b", "a  b ", " x", "one"] {
        let want: Vec<&str> = s.split(' ').collect();
        let got = split(s, ' ');
        assert_eq!(slices(&got), want, "{s:?}");
    }
}

#[test]
fn lines_end_with_a_line_feed() {
    for s in [
        "", "a", "\n", "a\n", "a\nb", "a\n\nb\n", "a\r\nb", "a\r\r\n", "\r", "a\n\r", "\r\n\r\n", "a\rb",
        "é\r\n✓",
    ] {
        let want: Vec<&str> = s.lines().collect();
        assert_eq!(slices(&lines(s)), want, "{s:?}");
    }
}

#[test]
fn a_styled_line_has_a_piece_for_each_line_of_its_text() {
    for s in ["", "one", "one\ntwo", "one\r\n\ntwo\n", "\n"] {
        let ours = Line::styled(s.to_string(), Style::new());
        let theirs = ratatui::text::Line::styled(s, ratatui::style::Style::new());
        let ours: Vec<&str> = ours.spans.iter().map(|p| p.text.as_str()).collect();
        let theirs: Vec<&str> = theirs.spans.iter().map(|p| p.content.as_ref()).collect();
        assert_eq!(ours, theirs, "{s:?}");
    }
}

fn args(list: &[&str]) -> Vec<String> {
    list.iter().map(|s| s.to_string()).collect()
}

fn play(list: &[&str]) -> (String, Option<String>, bool) {
    match arguments(&args(list)) {
        Start::Play { port, addr, hide_notes } => (port, addr, hide_notes),
        Start::Help => panic!("asked for help"),
    }
}

#[test]
fn arguments_say_how_to_play() {
    assert_eq!(play(&[]), ("7777".into(), None, false));
    assert_eq!(play(&["--hide-notes"]), ("7777".into(), None, true));
    assert_eq!(play(&["-port", "80"]), ("80".into(), None, false));
    assert_eq!(play(&["--port"]), ("7777".into(), None, false));
    assert_eq!(
        play(&["--port", "80", "box"]),
        ("80".into(), Some("box:80".into()), false)
    );
    assert_eq!(
        play(&["box", "--port", "80"]),
        ("80".into(), Some("box:7777".into()), false)
    );
    assert_eq!(
        play(&["box:1", "other:2"]),
        ("7777".into(), Some("other:2".into()), false)
    );
    assert!(matches!(arguments(&args(&["x", "-h"])), Start::Help));
    assert!(matches!(arguments(&args(&["--help"])), Start::Help));
    assert_eq!(play(&["--port", "-h"]).0, "-h");
}

#[test]
fn the_public_address_is_the_body_of_the_reply() {
    assert_eq!(
        public_ip("HTTP/1.0 200 OK\r\nX: y\r\n\r\n1.2.3.4\n"),
        Some("1.2.3.4".to_string())
    );
    assert_eq!(public_ip("HTTP/1.0 200 OK\r\n"), None);
    assert_eq!(public_ip("a\r\n\r\n  "), None);
    assert_eq!(public_ip(&format!("\r\n\r\n{}", "x".repeat(45))).unwrap().len(), 45);
    assert_eq!(public_ip(&format!("\r\n\r\n{}", "x".repeat(46))), None);
    assert_eq!(public_ip(&format!("\r\n\r\n{}", "é".repeat(23))), None, "bytes count");
    assert_eq!(after("a,b,c", ","), "b,c");
    assert_eq!(after("abc", ","), "");
}

#[test]
fn a_plan_hosts_or_joins() {
    let p = plan(&None, "7777", "ann");
    assert_eq!(p.listen.as_deref(), Some("0.0.0.0:7777"));
    assert_eq!(p.target, "127.0.0.1:7777");
    assert_eq!((p.hello.cmd.as_str(), p.hello.name.as_str()), ("join", "ann"));
    let p = plan(&Some("box:1".into()), "7777", "bo");
    assert_eq!(p.listen, None);
    assert_eq!(p.target, "box:1");
    assert_eq!(endpoint("1.2.3.4", "80"), "1.2.3.4:80");
}

fn same_rect(a: Rect, b: ratatui::layout::Rect) -> bool {
    (a.x, a.y, a.width, a.height) == (b.x, b.y, b.width, b.height)
}

#[test]
fn rectangles_are_those_of_the_terminal() {
    let edges = [0u16, 1, 2, 3, 50, 65533, 65534, 65535];
    let block = ratatui::widgets::Block::default().borders(ratatui::widgets::Borders::ALL);
    for x in edges {
        for y in edges {
            for width in edges {
                for height in edges {
                    let a = Rect { x, y, width, height };
                    let b = ratatui::layout::Rect { x, y, width, height };
                    assert!(same_rect(
                        Rect::new(x, y, width, height),
                        ratatui::layout::Rect::new(x, y, width, height)
                    ));
                    assert_eq!(a.right(), b.right());
                    assert_eq!(a.bottom(), b.bottom());
                    assert!(same_rect(a.framed(), block.inner(b)), "{a:?}");
                    for (h, v) in [(0, 0), (1, 0), (1, 1), (40_000, 3)] {
                        assert!(same_rect(
                            a.inner(h, v),
                            b.inner(ratatui::layout::Margin::new(h, v))
                        ));
                    }
                    for cx in edges {
                        for cy in edges {
                            let at = ratatui::layout::Position::new(cx, cy);
                            assert_eq!(a.contains(cx, cy), b.contains(at));
                        }
                    }
                }
            }
        }
    }
}
