//! What holds of every text under edit.

use crate::area::Rect;
use crate::notes::{before, Notes, NotesView};
use crate::text::clip;
use vstd::prelude::*;

verus! {

impl NotesView {
    /// The anchor, if there is one, is a position of the text.
    pub open spec fn anchor_in_text(self) -> bool {
        self.anchor matches Some(a) ==> 0 <= a.0 < self.lines.len() && 0 <= a.1
            <= self.lines[a.0].len()
    }

    /// The cursor and the anchor are positions of the text.
    pub open spec fn sound(self) -> bool {
        self.wf() && self.anchor_in_text()
    }

    /// The anchor is where the cursor is: set, but nothing is selected.
    pub open spec fn collapsed(self) -> bool {
        self.anchor == Some((self.row, self.col))
    }

    /// Backspace would leave the anchor behind, out of the text.
    pub open spec fn strands_anchor(self) -> bool {
        self.collapsed() && (if self.col > 0 {
            self.col == self.line().len()
        } else {
            self.row > 0 && self.row + 1 == self.lines.len()
        })
    }
}

/// The characters of the pieces of a line, one piece after the other.
pub open spec fn joined(v: Seq<(Seq<char>, bool)>) -> Seq<char>
    decreases v.len(),
{
    if v.len() == 0 {
        Seq::empty()
    } else {
        joined(v.drop_last()) + v.last().0
    }
}

/// Taking out the selection leaves the cursor in the text, nothing selected.
pub proof fn lemma_without_selection_sound(n: NotesView)
    requires
        n.sound(),
    ensures
        n.selection_fits(),
        n.without_selection().sound(),
        n.without_selection().selection() is None,
        n.selection() is Some ==> n.without_selection().anchor is None,
{
}

/// In a sound text every edit is allowed, and keeps the text sound; so does backspace, but for an
/// anchor that it would leave behind.
pub proof fn edits_keep_the_text_sound(n: NotesView, ch: char)
    requires
        n.sound(),
    ensures
        n.selection_fits(),
        n.without_selection().sound(),
        n.inserted(ch).sound(),
        n.broken().sound(),
        n.deleted().sound(),
        !n.strands_anchor() ==> n.backspaced().sound(),
{
    lemma_without_selection_sound(n);
    let t = n.without_selection();
    assert(t.head().len() == t.col);
    if n.anchor is Some && n.selection() is None {
        assert(n.collapsed());
    }
}

/// Moving the cursor keeps a sound text sound and never changes its lines.
pub proof fn moves_keep_the_text(n: NotesView)
    requires
        n.sound(),
    ensures
        n.to_left().sound() && n.to_left().lines == n.lines,
        n.to_right().sound() && n.to_right().lines == n.lines,
        n.to_up().sound() && n.to_up().lines == n.lines,
        n.to_down().sound() && n.to_down().lines == n.lines,
{
}

/// The mouse keeps a sound text sound and never changes its lines.
pub proof fn the_mouse_keeps_the_text(n: NotesView, x: u16, y: u16, inner: Rect)
    requires
        n.sound(),
        n.scroll >= 0,
    ensures
        n.clicked(x, y, inner).sound() && n.clicked(x, y, inner).lines == n.lines,
        n.dragged_to(x, y, inner).sound() && n.dragged_to(x, y, inner).lines == n.lines,
{
}

/// Backspace undoes a typed character: what is left is the text without what was selected.
pub proof fn backspace_undoes_typing(n: NotesView, ch: char)
    requires
        n.sound(),
        !n.collapsed(),
    ensures
        n.inserted(ch).backspaced() == n.without_selection(),
{
    lemma_without_selection_sound(n);
    let t = n.without_selection();
    let i = n.inserted(ch);
    assert(t.anchor is None);
    assert(i.line() == t.head().push(ch) + t.tail());
    assert(t.head().len() == t.col);
    assert(i.line().remove(i.col - 1) =~= t.line());
    assert(i.backspaced().lines =~= t.lines);
}

/// Backspace undoes a line break.
pub proof fn backspace_undoes_a_line_break(n: NotesView)
    requires
        n.sound(),
        !n.collapsed(),
    ensures
        n.broken().backspaced() == n.without_selection(),
{
    lemma_without_selection_sound(n);
    let t = n.without_selection();
    let b = n.broken();
    assert(t.anchor is None);
    assert(b.lines[b.row - 1] == t.head());
    assert(b.lines[b.row] == t.tail());
    assert(t.head().len() == t.col);
    assert(t.head() + t.tail() =~= t.line());
    assert(b.backspaced().lines =~= t.lines);
}

/// Backspace is a step to the left and a delete there.
pub proof fn backspace_is_left_and_delete(n: NotesView)
    requires
        n.wf(),
        n.anchor is None,
        n.row > 0 || n.col > 0,
    ensures
        n.to_left().deleted() == n.backspaced(),
{
    let l = n.to_left();
    assert(l.anchor is None);
    if n.col == 0 {
        assert(l.deleted().lines =~= n.backspaced().lines);
    } else {
        assert(l.col == n.col - 1);
        assert(l.line() == n.line());
    }
}

/// A step to the left undoes a step to the right that moved.
pub proof fn left_undoes_right(n: NotesView)
    requires
        n.wf(),
        n.to_right() != n,
    ensures
        n.to_right().to_left() == n,
{
}

/// A selection is not empty and its ends are in the order of the text.
pub proof fn a_selection_is_ordered(n: NotesView)
    ensures
        n.selection() matches Some((s, e)) ==> before(s, e),
{
}

/// A click selects nothing, whatever was selected before.
pub proof fn a_click_selects_nothing(n: NotesView, x: u16, y: u16, inner: Rect)
    ensures
        n.clicked(x, y, inner).selection() is None,
{
}

/// Dragging from one cell to another selects what dragging back selects.
pub proof fn drags_select_the_same_both_ways(
    n: NotesView,
    x0: u16,
    y0: u16,
    x1: u16,
    y1: u16,
    inner: Rect,
)
    ensures
        n.clicked(x0, y0, inner).dragged_to(x1, y1, inner).selection() == n.clicked(
            x1,
            y1,
            inner,
        ).dragged_to(x0, y0, inner).selection(),
{
    let a = n.clicked(x0, y0, inner);
    let b = n.clicked(x1, y1, inner);
    assert(a.lines == n.lines && b.lines == n.lines);
    assert(a.scroll == n.scroll && b.scroll == n.scroll);
}

/// Typing, a line break, backspace and delete all use the selection up.
pub proof fn edits_consume_the_selection(n: NotesView, ch: char)
    requires
        n.sound(),
        n.selection() is Some,
    ensures
        n.inserted(ch).selection() is None,
        n.broken().selection() is None,
        n.backspaced() == n.without_selection(),
        n.deleted() == n.without_selection(),
        n.without_selection().selection() is None,
{
}

/// After a click, each character typed goes in behind the one before.
pub proof fn typing_after_a_click_does_not_eat_itself(
    n: NotesView,
    x: u16,
    y: u16,
    inner: Rect,
    a: char,
    b: char,
)
    requires
        n.sound(),
        n.scroll >= 0,
    ensures
        ({
            let c = n.clicked(x, y, inner);
            let t = c.inserted(a).inserted(b);
            t.lines == c.lines.update(c.row, c.head().push(a).push(b) + c.tail())
        }),
{
    let c = n.clicked(x, y, inner);
    let i = c.inserted(a);
    let t = i.inserted(b);
    assert(c.wf());
    assert(c.head().len() == c.col);
    assert(i.line() == c.head().push(a) + c.tail());
    assert(i.head() =~= c.head().push(a));
    assert(i.tail() =~= c.tail());
    assert(t.lines =~= c.lines.update(c.row, c.head().push(a).push(b) + c.tail()));
}

/// The pieces of a line are the line again, but for the space that stands for an empty selected
/// part.
pub proof fn segments_are_the_line(n: NotesView, idx: int)
    requires
        0 <= idx < n.lines.len(),
        n.row >= 0,
        n.col >= 0,
        n.anchor matches Some(a) ==> a.0 >= 0 && a.1 >= 0,
    ensures
        ({
            let v = n.segments(idx);
            ||| joined(v) == n.lines[idx]
            ||| exists|k: int|
                0 <= k < v.len() && #[trigger] v[k] == (seq![' '], true) && joined(v.take(k))
                    + joined(v.skip(k + 1)) == n.lines[idx]
        }),
{
    let v = n.segments(idx);
    let line = n.lines[idx];
    reveal_with_fuel(joined, 4);
    match n.selection() {
        Some((s, e)) if s.0 <= idx <= e.0 => {
            let len = line.len() as int;
            let start = if idx == s.0 {
                s.1
            } else {
                0
            };
            let end = if idx == e.0 {
                e.1
            } else {
                len
            };
            let mid = clip(line, start, end);
            let left = if start > 0 {
                seq![(clip(line, 0, start), false)]
            } else {
                Seq::empty()
            };
            let right = if end < len {
                seq![(clip(line, end, len), false)]
            } else {
                Seq::empty()
            };
            let k = left.len() as int;
            assert(v.take(k) =~= left);
            assert(v.skip(k + 1) =~= right);
            assert(joined(left) =~= clip(line, 0, start));
            assert(joined(right) =~= clip(line, end, len));
            assert(clip(line, 0, start) + mid + clip(line, end, len) =~= line);
            if mid.len() == 0 {
                assert(v[k] == (seq![' '], true));
                assert(joined(v.take(k)) + joined(v.skip(k + 1)) =~= line);
            } else {
                assert(v.take(k + 1).drop_last() =~= left);
                assert(joined(v.take(k + 1)) == joined(left) + mid);
                if end < len {
                    assert(v.drop_last() =~= v.take(k + 1));
                    assert(joined(v) =~= line);
                } else {
                    assert(v =~= v.take(k + 1));
                    assert(joined(v) =~= line);
                }
            }
        },
        _ => {
            assert(v.drop_last() =~= Seq::empty());
            assert(joined(v) =~= line);
        },
    }
}

/// After following, the cursor is in view.
pub proof fn following_shows_the_cursor(n: NotesView, height: u16)
    requires
        height >= 1,
    ensures
        ({
            let f = n.followed(height);
            f.scroll <= f.row < f.scroll + height
        }),
{
}

/// Scrolling stops at the top and where the last page is still full.
pub proof fn scrolling_stops_at_the_ends(n: NotesView, delta: int, height: u16)
    ensures
        0 <= n.scrolled_by(delta, height).scroll <= n.last_page(height),
{
}

/// Two positions of a text, in its order: the selection runs between the anchor and the cursor,
/// whichever comes first, and there is none without an anchor or where the two are one.
pub proof fn the_selection_runs_between_anchor_and_cursor(n: NotesView)
    ensures
        n.anchor is None ==> n.selection() is None,
        n.anchor matches Some(a) ==> {
            &&& a.0 == n.row && a.1 == n.col ==> n.selection() is None
            &&& a.0 < n.row || (a.0 == n.row && a.1 < n.col) ==> n.selection() == Some(
                (a, (n.row, n.col)),
            )
            &&& a.0 > n.row || (a.0 == n.row && a.1 > n.col) ==> n.selection() == Some(
                ((n.row, n.col), a),
            )
        },
{
}

/// Deleting a selection leaves every line before it and every line after it as it was, joins what
/// stands left of it and right of it, and puts the cursor where it began.
pub proof fn deleting_a_selection_leaves_the_rest(n: NotesView)
    requires
        n.selection() matches Some((s, e)) ==> {
            0 <= s.0 <= e.0 < n.lines.len() && 0 <= s.1 && 0 <= e.1
        },
    ensures
        n.selection() matches Some((s, e)) ==> {
            let t = n.without_selection();
            let first = n.lines[s.0];
            let last = n.lines[e.0];
            let from = if s.1 < first.len() {
                s.1
            } else {
                first.len() as int
            };
            let to = if e.1 < last.len() {
                e.1
            } else {
                last.len() as int
            };
            &&& t.lines.len() == n.lines.len() - (e.0 - s.0)
            &&& forall|i: int| 0 <= i < s.0 ==> #[trigger] t.lines[i] == n.lines[i]
            &&& t.lines[s.0] == first.take(from) + last.skip(to)
            &&& forall|i: int|
                s.0 < i < t.lines.len() ==> #[trigger] t.lines[i] == n.lines[i + (e.0 - s.0)]
            &&& t.row == s.0
            &&& t.col == s.1
            &&& t.scroll == n.scroll
            &&& t.anchor is None
        },
        n.selection() is None ==> n.without_selection() == n,
{
    if let Some((s, e)) = n.selection() {
        let t = n.without_selection();
        let first = n.lines[s.0];
        let last = n.lines[e.0];
        let from = if s.1 < first.len() {
            s.1
        } else {
            first.len() as int
        };
        let to = if e.1 < last.len() {
            e.1
        } else {
            last.len() as int
        };
        assert(t.lines[s.0] =~= first.take(from) + last.skip(to));
    }
}

/// Typing over a selection, or breaking a line there, is deleting it and then typing.
pub proof fn typing_over_a_selection_deletes_it_first(n: NotesView, ch: char)
    requires
        n.sound(),
    ensures
        n.inserted(ch) == n.without_selection().inserted(ch),
        n.broken() == n.without_selection().broken(),
        n.selection() is Some ==> n.backspaced() == n.without_selection(),
        n.selection() is Some ==> n.deleted() == n.without_selection(),
{
    lemma_without_selection_sound(n);
}

/// A typed character goes in at the cursor, or at the end of its line if that is before it, and the
/// cursor moves on by one; nothing else changes.
pub proof fn typing_puts_one_character_in(n: NotesView, ch: char)
    requires
        0 <= n.row < n.lines.len(),
        0 <= n.col,
        n.selection() is None,
    ensures
        ({
            let t = n.inserted(ch);
            let line = n.lines[n.row];
            let at = if n.col < line.len() {
                n.col
            } else {
                line.len() as int
            };
            &&& t.lines.len() == n.lines.len()
            &&& t.lines[n.row] == line.take(at).push(ch) + line.skip(at)
            &&& forall|i: int|
                0 <= i < n.lines.len() && i != n.row ==> #[trigger] t.lines[i] == n.lines[i]
            &&& t.row == n.row
            &&& t.col == n.col + 1
            &&& t.scroll == n.scroll
            &&& t.anchor == n.anchor
        }),
{
    let line = n.lines[n.row];
    let at = if n.col < line.len() {
        n.col
    } else {
        line.len() as int
    };
    assert(n.head() =~= line.take(at));
    assert(n.tail() =~= line.skip(at));
}

/// A line break leaves what is left of the cursor on its line and puts what is right of it on a new
/// one below, with the cursor at its start; nothing else changes.
pub proof fn a_line_break_splits_the_line(n: NotesView)
    requires
        0 <= n.row < n.lines.len(),
        0 <= n.col,
        n.selection() is None,
    ensures
        ({
            let t = n.broken();
            let line = n.lines[n.row];
            let at = if n.col < line.len() {
                n.col
            } else {
                line.len() as int
            };
            &&& t.lines.len() == n.lines.len() + 1
            &&& t.lines[n.row] == line.take(at)
            &&& t.lines[n.row + 1] == line.skip(at)
            &&& forall|i: int| 0 <= i < n.row ==> #[trigger] t.lines[i] == n.lines[i]
            &&& forall|i: int|
                n.row + 1 < i < t.lines.len() ==> #[trigger] t.lines[i] == n.lines[i - 1]
            &&& t.row == n.row + 1
            &&& t.col == 0
            &&& t.scroll == n.scroll
            &&& t.anchor == n.anchor
        }),
{
    let line = n.lines[n.row];
    let at = if n.col < line.len() {
        n.col
    } else {
        line.len() as int
    };
    assert(n.head() =~= line.take(at));
    assert(n.tail() =~= line.skip(at));
}

/// Without a selection, backspace takes out the one character left of the cursor; at the start of a
/// line it joins the line to the one before; at the start of the text it does nothing. Nothing else
/// changes.
pub proof fn backspace_takes_out_what_is_left_of_the_cursor(n: NotesView)
    requires
        n.wf(),
        n.selection() is None,
    ensures
        ({
            let t = n.backspaced();
            let line = n.lines[n.row];
            &&& t.scroll == n.scroll && t.anchor == n.anchor
            &&& n.col > 0 ==> {
                &&& t.lines.len() == n.lines.len()
                &&& t.lines[n.row] == line.take(n.col - 1) + line.skip(n.col)
                &&& forall|i: int|
                    0 <= i < n.lines.len() && i != n.row ==> #[trigger] t.lines[i] == n.lines[i]
                &&& t.row == n.row
                &&& t.col == n.col - 1
            }
            &&& n.col == 0 && n.row > 0 ==> {
                &&& t.lines.len() == n.lines.len() - 1
                &&& t.lines[n.row - 1] == n.lines[n.row - 1] + line
                &&& forall|i: int| 0 <= i < n.row - 1 ==> #[trigger] t.lines[i] == n.lines[i]
                &&& forall|i: int|
                    n.row <= i < t.lines.len() ==> #[trigger] t.lines[i] == n.lines[i + 1]
                &&& t.row == n.row - 1
                &&& t.col == n.lines[n.row - 1].len()
            }
            &&& n.col == 0 && n.row == 0 ==> t == n
        }),
{
    let line = n.lines[n.row];
    if n.col > 0 {
        assert(n.backspaced().lines[n.row] =~= line.take(n.col - 1) + line.skip(n.col));
    }
}

/// Without a selection, delete takes out the one character right of the cursor; at the end of a
/// line it joins the next one to it; at the end of the text it does nothing. The cursor stays, and
/// nothing else changes.
pub proof fn delete_takes_out_what_is_right_of_the_cursor(n: NotesView)
    requires
        0 <= n.row < n.lines.len(),
        0 <= n.col,
        n.selection() is None,
    ensures
        ({
            let t = n.deleted();
            let line = n.lines[n.row];
            &&& t.row == n.row && t.col == n.col
            &&& t.scroll == n.scroll && t.anchor == n.anchor
            &&& n.col < line.len() ==> {
                &&& t.lines.len() == n.lines.len()
                &&& t.lines[n.row] == line.take(n.col) + line.skip(n.col + 1)
                &&& forall|i: int|
                    0 <= i < n.lines.len() && i != n.row ==> #[trigger] t.lines[i] == n.lines[i]
            }
            &&& n.col >= line.len() && n.row + 1 < n.lines.len() ==> {
                &&& t.lines.len() == n.lines.len() - 1
                &&& t.lines[n.row] == line + n.lines[n.row + 1]
                &&& forall|i: int| 0 <= i < n.row ==> #[trigger] t.lines[i] == n.lines[i]
                &&& forall|i: int|
                    n.row < i < t.lines.len() ==> #[trigger] t.lines[i] == n.lines[i + 1]
            }
            &&& n.col >= line.len() && n.row + 1 == n.lines.len() ==> t == n
        }),
{
    let line = n.lines[n.row];
    if n.col < line.len() {
        assert(n.deleted().lines[n.row] =~= line.take(n.col) + line.skip(n.col + 1));
    }
}

/// The cursor moves by one character to either side, over the end of a line to the next one, or by
/// one line, keeping its column or stopping at the end of a shorter line; at the ends of the text
/// it stays. Nothing else changes.
pub proof fn the_cursor_moves_by_one(n: NotesView)
    requires
        0 <= n.row < n.lines.len(),
        0 <= n.col,
    ensures
        ({
            let len = n.lines[n.row].len();
            let last = n.lines.len() - 1;
            let at = |row: int, col: int| NotesView { row, col, ..n };
            &&& n.col > 0 ==> n.to_left() == at(n.row, n.col - 1)
            &&& n.col == 0 && n.row > 0 ==> n.to_left() == at(
                n.row - 1,
                n.lines[n.row - 1].len() as int,
            )
            &&& n.col == 0 && n.row == 0 ==> n.to_left() == n
            &&& n.col < len ==> n.to_right() == at(n.row, n.col + 1)
            &&& n.col >= len && n.row < last ==> n.to_right() == at(n.row + 1, 0)
            &&& n.col >= len && n.row == last ==> n.to_right() == n
            &&& n.row == 0 ==> n.to_up() == n
            &&& n.row == last ==> n.to_down() == n
            &&& n.row > 0 && n.col <= n.lines[n.row - 1].len() ==> n.to_up() == at(n.row - 1, n.col)
            &&& n.row > 0 && n.col > n.lines[n.row - 1].len() ==> n.to_up() == at(
                n.row - 1,
                n.lines[n.row - 1].len() as int,
            )
            &&& n.row < last && n.col <= n.lines[n.row + 1].len() ==> n.to_down() == at(
                n.row + 1,
                n.col,
            )
            &&& n.row < last && n.col > n.lines[n.row + 1].len() ==> n.to_down() == at(
                n.row + 1,
                n.lines[n.row + 1].len() as int,
            )
        }),
{
}

/// A click in the cell where a character is drawn puts the cursor at it; past the end of a line it
/// goes to that end, below the last line to that line, and left of or above the pane to its edge.
/// Nothing else of the text changes but that the anchor goes.
pub proof fn a_click_lands_on_the_clicked_character(n: NotesView, x: u16, y: u16, inner: Rect)
    requires
        n.lines.len() > 0,
        n.scroll >= 0,
    ensures
        ({
            let c = n.clicked(x, y, inner);
            let dx = if x < inner.x {
                0int
            } else {
                x - inner.x
            };
            let dy = if y < inner.y {
                0int
            } else {
                y - inner.y
            };
            &&& c.lines == n.lines && c.scroll == n.scroll && c.anchor is None
            &&& n.scroll + dy < n.lines.len() ==> c.row == n.scroll + dy
            &&& n.scroll + dy >= n.lines.len() ==> c.row == n.lines.len() - 1
            &&& dx <= n.lines[c.row].len() ==> c.col == dx
            &&& dx > n.lines[c.row].len() ==> c.col == n.lines[c.row].len()
        }),
{
}

/// A drag moves the cursor as a click does, and anchors the selection where the cursor was, unless
/// it is anchored already.
pub proof fn a_drag_selects_from_where_it_began(n: NotesView, x: u16, y: u16, inner: Rect)
    requires
        n.lines.len() > 0,
    ensures
        ({
            let d = n.dragged_to(x, y, inner);
            let c = n.clicked(x, y, inner);
            &&& d.lines == n.lines && d.scroll == n.scroll
            &&& d.row == c.row && d.col == c.col
            &&& n.anchor is None ==> d.anchor == Some((n.row, n.col))
            &&& n.anchor is Some ==> d.anchor == n.anchor
        }),
{
}

/// Scrolling goes as far as it is asked to, or as far as it can: from the top to where the last
/// line is the last in view. Nothing else changes.
pub proof fn scrolling_goes_as_far_as_it_can(n: NotesView, delta: int, height: u16)
    ensures
        ({
            let t = n.scrolled_by(delta, height);
            let last = if n.lines.len() > height {
                n.lines.len() - height
            } else {
                0
            };
            let to = n.scroll + delta;
            &&& t == NotesView { scroll: t.scroll, ..n }
            &&& 0 <= to <= last ==> t.scroll == to
            &&& to < 0 ==> t.scroll == 0
            &&& to > last && to >= 0 ==> t.scroll == last
        }),
{
}

/// Following scrolls only where the cursor is out of view, and then so that it is in the first row,
/// coming from below, or in the last, coming from above. Nothing else changes.
pub proof fn following_scrolls_no_more_than_it_must(n: NotesView, height: u16)
    ensures
        ({
            let t = n.followed(height);
            let rows = if height == 0 {
                1
            } else {
                height as int
            };
            &&& t == NotesView { scroll: t.scroll, ..n }
            &&& n.scroll <= n.row < n.scroll + rows ==> t.scroll == n.scroll
            &&& n.row < n.scroll ==> t.scroll == n.row
            &&& n.row >= n.scroll + rows ==> t.scroll + rows - 1 == n.row
        }),
{
}

/// A line that the selection does not touch is one piece, not selected.
pub proof fn lines_off_the_selection_are_one_piece(n: NotesView, idx: int)
    requires
        0 <= idx < n.lines.len(),
        n.selection() matches Some((s, e)) ==> idx < s.0 || idx > e.0,
    ensures
        n.segments(idx) == seq![(n.lines[idx], false)],
{
}

/// Of a line that the selection touches, exactly the characters of the selection are selected: from
/// its start, or the start of the line, to its end, or the end of the line; or one space, where
/// there are none.
pub proof fn exactly_the_selection_is_selected(n: NotesView, idx: int)
    requires
        n.row >= 0,
        n.col >= 0,
        n.anchor matches Some(a) ==> a.0 >= 0 && a.1 >= 0,
        0 <= idx < n.lines.len(),
        n.selection() matches Some((s, e)) && s.0 <= idx <= e.0,
    ensures
        ({
            let (s, e) = n.selection()->0;
            let line = n.lines[idx];
            let v = n.segments(idx);
            let from = if idx > s.0 {
                0
            } else if s.1 < line.len() {
                s.1
            } else {
                line.len() as int
            };
            let to = if idx == e.0 && e.1 < line.len() {
                e.1
            } else {
                line.len() as int
            };
            exists|k: int|
                {
                    &&& 0 <= k < v.len()
                    &&& (#[trigger] v[k]).1
                    &&& v[k].0 == (if from == to {
                        seq![' ']
                    } else {
                        line.subrange(from, to)
                    })
                    &&& joined(v.take(k)) == line.take(from)
                    &&& joined(v.skip(k + 1)) == line.skip(to)
                    &&& forall|j: int| 0 <= j < v.len() && j != k ==> !(#[trigger] v[j]).1
                }
        }),
{
    let (s, e) = n.selection()->0;
    let line = n.lines[idx];
    let len = line.len() as int;
    let v = n.segments(idx);
    let start = if idx == s.0 {
        s.1
    } else {
        0
    };
    let end = if idx == e.0 {
        e.1
    } else {
        len
    };
    let from = if start < len {
        start
    } else {
        len
    };
    let to = if end < len {
        end
    } else {
        len
    };
    assert(from <= to <= len);
    reveal_with_fuel(joined, 3);
    let left = if start > 0 {
        seq![(clip(line, 0, start), false)]
    } else {
        Seq::empty()
    };
    let right = if end < len {
        seq![(clip(line, end, len), false)]
    } else {
        Seq::empty()
    };
    let k = left.len() as int;
    assert(v.take(k) =~= left);
    assert(v.skip(k + 1) =~= right);
    assert(joined(left) =~= line.take(from));
    assert(joined(right) =~= line.skip(to));
    assert(v[k].1);
}

/// A new text is one line without characters, the cursor in it.
pub proof fn a_new_text_is_blank()
    ensures
        ({
            let n = NotesView::blank();
            &&& n.lines.len() == 1 && n.lines[0].len() == 0
            &&& n.row == 0 && n.col == 0 && n.scroll == 0 && n.anchor is None
            &&& n.sound()
        }),
{
}

/// The cursor is drawn as many rows below the top of the pane as its line is below the first in
/// view, and as many columns from the left as its column; out of view it is not drawn.
pub proof fn the_cursor_is_drawn_at_its_character(n: NotesView, inner: Rect)
    requires
        0 <= n.col <= u16::MAX,
    ensures
        0 <= n.row - n.scroll < inner.height ==> n.cell(inner) == Some(
            (inner.x + n.col, inner.y + n.row - n.scroll),
        ),
        n.row < n.scroll || n.row >= n.scroll + inner.height ==> n.cell(inner) is None,
{
}

/// The view of a text has all of it.
pub proof fn a_text_is_in_its_view(n: Notes)
    ensures
        n@.lines.len() == n.lines.len(),
        forall|i: int| 0 <= i < n.lines.len() ==> #[trigger] n@.lines[i] == n.lines[i]@,
        n@.row == n.row,
        n@.col == n.col,
        n@.scroll == n.scroll,
        n.anchor is None <==> n@.anchor is None,
        n.anchor matches Some(a) ==> n@.anchor == Some((a.0 as int, a.1 as int)),
{
}

} // verus!
