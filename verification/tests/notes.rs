use headband::area::Rect;
use headband::notes::Notes;

fn typed(s: &str) -> Notes {
    let mut n = Notes::new();
    for ch in s.chars() {
        if ch == '\n' {
            n.newline()
        } else {
            n.insert(ch)
        }
    }
    n
}

#[test]
fn edits_text() {
    let mut n = typed("hello\nworld");
    assert_eq!(n.lines, vec!["hello", "world"]);
    n.backspace();
    assert_eq!(n.lines, vec!["hello", "worl"]);
    n.home();
    n.backspace();
    assert_eq!(n.lines, vec!["helloworl"], "backspace at col 0 joins lines");
    assert_eq!((n.row, n.col), (0, 5));
}

#[test]
fn handles_wide_chars() {
    let mut n = typed("héllo");
    n.home();
    n.right();
    n.delete();
    assert_eq!(n.lines, vec!["hllo"], "delete must not split a utf-8 char");
}

#[test]
fn click_lands_on_the_clicked_character() {
    let mut n = typed("one\ntwo\nthree");
    let inner = Rect::new(10, 5, 20, 3);
    n.click(13, 6, inner);
    assert_eq!((n.row, n.col), (1, 3));

    n.click(99, 99, inner);
    assert_eq!((n.row, n.col), (2, 5), "clicks past the text clamp to it");
}

#[test]
fn click_accounts_for_scroll() {
    let mut n = typed("a\nb\nc\nd\ne");
    n.scroll = 3;
    let inner = Rect::new(0, 0, 10, 2);
    n.click(0, 0, inner);
    assert_eq!(n.row, 3, "first visible row is the scrolled-to row");
}

#[test]
fn scroll_stops_at_the_ends() {
    let mut n = typed("a\nb\nc\nd\ne");
    n.scroll_by(-5, 2);
    assert_eq!(n.scroll, 0);
    n.scroll_by(99, 2);
    assert_eq!(n.scroll, 3, "last page stays full");
}

#[test]
fn cursor_hides_when_scrolled_away() {
    let mut n = typed("a\nb\nc\nd");
    let inner = Rect::new(0, 0, 10, 2);
    n.row = 3;
    n.col = 0;
    assert_eq!(n.cursor_at(inner), None);
    n.follow(2);
    assert_eq!(n.cursor_at(inner), Some((0, 1)));
}

const INNER: Rect = Rect {
    x: 0,
    y: 0,
    width: 20,
    height: 5,
};

#[test]
fn dragging_selects_a_span() {
    let mut n = typed("hello world");
    n.click(2, 0, INNER);
    assert_eq!(n.selection(), None, "a plain click selects nothing");
    n.drag_to(7, 0, INNER);
    assert_eq!(n.selection(), Some(((0, 2), (0, 7))));
}

#[test]
fn dragging_backwards_still_orders_the_span() {
    let mut n = typed("hello world");
    n.click(7, 0, INNER);
    n.drag_to(2, 0, INNER);
    assert_eq!(n.selection(), Some(((0, 2), (0, 7))));
}

#[test]
fn typing_replaces_the_selection() {
    let mut n = typed("hello world");
    n.click(0, 0, INNER);
    n.drag_to(6, 0, INNER);
    n.insert('b');
    assert_eq!(n.lines, vec!["bworld"]);
    assert_eq!((n.row, n.col), (0, 1));
    assert_eq!(n.selection(), None, "selection is consumed");
}

#[test]
fn backspace_deletes_across_lines() {
    let mut n = typed("one\ntwo\nthree");
    n.click(1, 0, INNER);
    n.drag_to(3, 2, INNER);
    n.backspace();
    assert_eq!(n.lines, vec!["oee"]);
    assert_eq!((n.row, n.col), (0, 1));
}

#[test]
fn segments_split_the_line_for_rendering() {
    let mut n = typed("hello world");
    n.click(2, 0, INNER);
    n.drag_to(7, 0, INNER);
    assert_eq!(
        n.segments(0),
        vec![
            ("he".to_string(), false),
            ("llo w".to_string(), true),
            ("orld".to_string(), false),
        ]
    );
}

#[test]
fn middle_lines_select_whole_and_blanks_stay_visible() {
    let mut n = typed("one\n\nthree");
    n.click(1, 0, INNER);
    n.drag_to(2, 2, INNER);
    assert_eq!(
        n.segments(0),
        vec![("o".into(), false), ("ne".into(), true)]
    );
    assert_eq!(n.segments(1), vec![(" ".into(), true)], "blank line shows");
    assert_eq!(
        n.segments(2),
        vec![("th".into(), true), ("ree".into(), false)]
    );
}

#[test]
fn typing_after_a_click_does_not_eat_itself() {
    let mut n = typed("hello");
    n.click(2, 0, INNER);
    n.insert('X');
    assert_eq!(n.selection(), None, "a bare click must select nothing");
    n.insert('Y');
    assert_eq!(
        n.lines,
        vec!["heXYllo"],
        "the second letter overwrote the first"
    );
}

#[test]
fn a_new_click_drops_the_old_selection() {
    let mut n = typed("hello world");
    n.click(2, 0, INNER);
    n.drag_to(7, 0, INNER);
    n.click(1, 0, INNER);
    assert_eq!(n.selection(), None);
    assert_eq!(n.segments(0), vec![("hello world".to_string(), false)]);
}

#[test]
fn typing_then_backspace_restores_the_text() {
    let mut n = typed("one\ntwo");
    n.up();
    n.insert('é');
    n.backspace();
    assert_eq!(n.lines, vec!["one", "two"]);
    assert_eq!((n.row, n.col), (0, 3));
    n.newline();
    assert_eq!(n.lines, vec!["one", "", "two"]);
    n.backspace();
    assert_eq!(n.lines, vec!["one", "two"]);
    assert_eq!((n.row, n.col), (0, 3));
}

#[test]
fn backspace_is_a_step_left_and_a_delete() {
    let mut a = typed("ab\ncd");
    let mut b = typed("ab\ncd");
    a.backspace();
    b.left();
    b.delete();
    assert_eq!(a.lines, b.lines);
    assert_eq!((a.row, a.col), (b.row, b.col));
    a.home();
    b.home();
    a.backspace();
    b.left();
    b.delete();
    assert_eq!(a.lines, vec!["abc"]);
    assert_eq!(a.lines, b.lines);
    assert_eq!((a.row, a.col), (b.row, b.col));
}

#[test]
fn backspace_at_the_start_of_the_text_does_nothing() {
    let mut n = typed("a");
    n.home();
    n.backspace();
    assert_eq!(n.lines, vec!["a"]);
    n.end();
    n.delete();
    assert_eq!(n.lines, vec!["a"]);
}

#[test]
fn moving_crosses_line_ends_and_stops_at_the_ends_of_the_text() {
    let mut n = typed("ab\nc");
    n.left();
    n.left();
    assert_eq!((n.row, n.col), (0, 2));
    n.right();
    assert_eq!((n.row, n.col), (1, 0));
    n.end();
    n.right();
    assert_eq!((n.row, n.col), (1, 1));
    n.up();
    n.home();
    n.left();
    assert_eq!((n.row, n.col), (0, 0));
    n.up();
    assert_eq!(n.row, 0);
    n.down();
    n.down();
    assert_eq!(n.row, 1);
}

#[test]
fn up_and_down_stop_at_the_end_of_a_shorter_line() {
    let mut n = typed("long line\nab");
    n.up();
    n.end();
    n.down();
    assert_eq!((n.row, n.col), (1, 2));
}

#[test]
fn an_insert_past_the_end_goes_to_the_end() {
    let mut n = typed("ab");
    n.col = 5;
    n.insert('c');
    assert_eq!(n.lines, vec!["abc"]);
    assert_eq!(n.col, 6);
}

#[test]
fn the_pieces_of_a_line_are_the_line() {
    let mut n = typed("hello world");
    n.click(3, 0, INNER);
    n.drag_to(3, 0, INNER);
    assert_eq!(n.selection(), None);
    n.drag_to(9, 0, INNER);
    let text: String = n.segments(0).into_iter().map(|(t, _)| t).collect();
    assert_eq!(text, "hello world");
}

#[test]
fn delete_selection_says_whether_there_was_one() {
    let mut n = typed("abc\ndef\nghi");
    assert!(!n.delete_selection());
    n.click(1, 0, INNER);
    n.drag_to(2, 1, INNER);
    assert!(n.delete_selection());
    assert_eq!(n.lines, vec!["af", "ghi"]);
    n.clear_selection();
    assert_eq!(n.selection(), None);
}

#[test]
fn follow_scrolls_as_little_as_it_can() {
    let mut n = typed("a\nb\nc\nd\ne");
    n.follow(3);
    assert_eq!(n.scroll, 2);
    n.row = 1;
    n.follow(3);
    assert_eq!(n.scroll, 1);
    n.row = 3;
    n.follow(3);
    assert_eq!(n.scroll, 1, "already in view");
    n.follow(0);
    assert_eq!(n.scroll, 3, "no height counts as one row");
}

#[test]
fn only_a_text_without_anything_is_empty() {
    let mut n = Notes::new();
    assert!(n.is_empty());
    n.newline();
    assert!(!n.is_empty(), "two lines");
    assert!(!typed("a").is_empty());
}

#[test]
fn a_text_without_lines_takes_only_what_needs_none() {
    let mut n = Notes::default();
    assert!(n.lines.is_empty());
    assert!(!n.is_empty(), "no line is not one empty line");
    assert!(!n.can_insert() && !n.can_cut());
    assert!(n.can_backspace() && n.can_go_up() && n.can_go_down());
    n.backspace();
    n.left();
    n.up();
    n.down();
    n.home();
    n.scroll_by(3, 2);
    assert!(n.lines.is_empty());
    assert_eq!((n.row, n.col, n.scroll), (0, 0, 0));
}

#[test]
fn a_drag_on_the_spot_leaves_its_anchor_behind() {
    let mut n = typed("a\nb");
    n.click(0, 1, INNER);
    n.drag_to(0, 1, INNER);
    assert_eq!(n.selection(), None);
    assert!(n.can_backspace());
    n.backspace();
    assert_eq!(n.lines, vec!["ab"]);
    assert!(n.selection().is_some(), "the anchor is on a line that is gone");
    assert!(!n.can_insert() && !n.can_cut() && !n.can_backspace());
    n.clear_selection();
    assert!(n.can_insert() && n.can_cut() && n.can_backspace());
}

#[test]
fn a_cursor_past_the_end_of_its_line_cannot_take_anything_out() {
    let mut n = typed("ab");
    n.col = 9;
    assert!(n.can_insert() && n.can_cut());
    assert!(!n.can_backspace());
    n.col = usize::MAX;
    assert!(!n.can_insert());
    n.row = 5;
    assert!(!n.can_cut() && !n.can_go_up());
    n.row = usize::MAX;
    assert!(!n.can_go_down());
}
