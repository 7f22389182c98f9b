//! A small text editor: lines, a cursor, a selection and a scroll position.

use crate::area::Rect;
use crate::text::{clip, cut, plus, views, width};
use vstd::prelude::*;

verus! {

/// A text under edit. `row` and `col` are the cursor, counted in lines and characters; `scroll` is
/// the first line on screen. A selection runs between the anchor and the cursor.
pub struct Notes {
    pub lines: Vec<String>,
    pub row: usize,
    pub col: usize,
    pub scroll: usize,
    pub anchor: Option<(usize, usize)>,
}

/// What a `Notes` holds.
#[verifier::ext_equal]
pub struct NotesView {
    pub lines: Seq<Seq<char>>,
    pub row: int,
    pub col: int,
    pub scroll: int,
    pub anchor: Option<(int, int)>,
}

/// Position `a` comes before position `b` in the text.
pub open spec fn before(a: (int, int), b: (int, int)) -> bool {
    a.0 < b.0 || (a.0 == b.0 && a.1 < b.1)
}

/// A span of positions, as integers.
pub open spec fn span(s: Option<((usize, usize), (usize, usize))>) -> Option<
    ((int, int), (int, int)),
> {
    match s {
        Some((a, b)) => Some(((a.0 as int, a.1 as int), (b.0 as int, b.1 as int))),
        None => None,
    }
}

/// The views of the pieces of a line.
pub open spec fn pieces(v: Seq<(String, bool)>) -> Seq<(Seq<char>, bool)> {
    Seq::new(v.len(), |i: int| (v[i].0@, v[i].1))
}

/// The lesser of two integers.
pub open spec fn least(a: int, b: int) -> int {
    if a < b {
        a
    } else {
        b
    }
}

impl NotesView {
    /// One line without characters.
    pub open spec fn blank() -> NotesView {
        NotesView { lines: seq![Seq::empty()], row: 0, col: 0, scroll: 0, anchor: None }
    }

    /// The cell of the pane `inner` that the cursor is drawn in, if it is in view; columns are
    /// counted in sixteen bits.
    pub open spec fn cell(self, inner: Rect) -> Option<(int, int)> {
        if self.scroll <= self.row < self.scroll + inner.height {
            Some((inner.x + (self.col as u16), inner.y + (self.row - self.scroll)))
        } else {
            None
        }
    }

    /// The line that the cursor is on.
    pub open spec fn line(self) -> Seq<char> {
        self.lines[self.row]
    }

    /// The cursor is on a line, and no further right than its end.
    pub open spec fn wf(self) -> bool {
        &&& 0 <= self.row < self.lines.len()
        &&& 0 <= self.col <= self.line().len()
    }

    /// The selected span, its ends in the order of the text.
    pub open spec fn selection(self) -> Option<((int, int), (int, int))> {
        match self.anchor {
            Some(a) => {
                let b = (self.row, self.col);
                if a == b {
                    None
                } else if before(a, b) {
                    Some((a, b))
                } else {
                    Some((b, a))
                }
            },
            None => None,
        }
    }

    /// The selection, if there is one, ends on a line of the text.
    pub open spec fn selection_fits(self) -> bool {
        self.selection() matches Some((s, e)) ==> e.0 < self.lines.len()
    }

    /// There is a line to type on, and a column behind the character typed.
    pub open spec fn can_insert(self) -> bool {
        let t = self.without_selection();
        &&& self.row < self.lines.len()
        &&& self.selection_fits()
        &&& t.col <= t.line().len() || t.col < usize::MAX
    }

    /// There is a line to break, or to take something out of.
    pub open spec fn can_cut(self) -> bool {
        self.row < self.lines.len() && self.selection_fits()
    }

    /// There is something to take out left of the cursor, or it is at the start of the text.
    pub open spec fn can_backspace(self) -> bool {
        &&& self.selection_fits()
        &&& self.selection() is None && (self.row > 0 || self.col > 0) ==> self.row
            < self.lines.len() && self.col <= self.line().len()
    }

    /// There is a line before that of the cursor, where it goes there.
    pub open spec fn can_go_up(self) -> bool {
        self.row > 0 ==> self.row <= self.lines.len()
    }

    /// The cursor can be counted one line further.
    pub open spec fn can_go_down(self) -> bool {
        self.row < self.lines.len() || self.row < usize::MAX
    }

    /// The text without what is selected, the cursor where the selection began.
    pub open spec fn without_selection(self) -> NotesView {
        match self.selection() {
            Some((s, e)) => NotesView {
                lines: self.lines.take(s.0).push(
                    clip(self.lines[s.0], 0, s.1) + clip(
                        self.lines[e.0],
                        e.1,
                        self.lines[e.0].len() as int,
                    ),
                ) + self.lines.skip(e.0 + 1),
                row: s.0,
                col: s.1,
                anchor: None,
                ..self
            },
            None => self,
        }
    }

    /// What stands left of the cursor on its line.
    pub open spec fn head(self) -> Seq<char> {
        clip(self.line(), 0, self.col)
    }

    /// What stands right of the cursor on its line.
    pub open spec fn tail(self) -> Seq<char> {
        clip(self.line(), self.col, self.line().len() as int)
    }

    /// The text after `ch` is typed.
    pub open spec fn inserted(self, ch: char) -> NotesView {
        let t = self.without_selection();
        NotesView {
            lines: t.lines.update(t.row, t.head().push(ch) + t.tail()),
            col: t.col + 1,
            ..t
        }
    }

    /// The text after a line break is typed.
    pub open spec fn broken(self) -> NotesView {
        let t = self.without_selection();
        NotesView {
            lines: t.lines.update(t.row, t.head()).insert(t.row + 1, t.tail()),
            row: t.row + 1,
            col: 0,
            ..t
        }
    }

    /// The text after the character, or the line break, left of the cursor is taken out.
    pub open spec fn backspaced(self) -> NotesView {
        if self.selection() is Some {
            self.without_selection()
        } else if self.col > 0 {
            NotesView {
                lines: self.lines.update(self.row, self.line().remove(self.col - 1)),
                col: self.col - 1,
                ..self
            }
        } else if self.row > 0 {
            NotesView {
                lines: self.lines.remove(self.row).update(
                    self.row - 1,
                    self.lines[self.row - 1] + self.line(),
                ),
                row: self.row - 1,
                col: self.lines[self.row - 1].len() as int,
                ..self
            }
        } else {
            self
        }
    }

    /// The text after the character, or the line break, right of the cursor is taken out.
    pub open spec fn deleted(self) -> NotesView {
        if self.selection() is Some {
            self.without_selection()
        } else if self.col < self.line().len() {
            NotesView {
                lines: self.lines.update(self.row, self.line().remove(self.col)),
                ..self
            }
        } else if self.row + 1 < self.lines.len() {
            NotesView {
                lines: self.lines.remove(self.row + 1).update(
                    self.row,
                    self.line() + self.lines[self.row + 1],
                ),
                ..self
            }
        } else {
            self
        }
    }

    /// The cursor one character to the left, across line ends.
    pub open spec fn to_left(self) -> NotesView {
        if self.col > 0 {
            NotesView { col: self.col - 1, ..self }
        } else if self.row > 0 {
            NotesView {
                row: self.row - 1,
                col: self.lines[self.row - 1].len() as int,
                ..self
            }
        } else {
            self
        }
    }

    /// The cursor one character to the right, across line ends.
    pub open spec fn to_right(self) -> NotesView {
        if self.col < self.line().len() {
            NotesView { col: self.col + 1, ..self }
        } else if self.row + 1 < self.lines.len() {
            NotesView { row: self.row + 1, col: 0, ..self }
        } else {
            self
        }
    }

    /// The cursor on line `row`, in its column or at the end of a shorter line.
    pub open spec fn on_row(self, row: int) -> NotesView {
        NotesView { row, col: least(self.col, self.lines[row].len() as int), ..self }
    }

    /// The cursor one line up.
    pub open spec fn to_up(self) -> NotesView {
        if self.row > 0 {
            self.on_row(self.row - 1)
        } else {
            self
        }
    }

    /// The cursor one line down.
    pub open spec fn to_down(self) -> NotesView {
        if self.row + 1 < self.lines.len() {
            self.on_row(self.row + 1)
        } else {
            self
        }
    }

    /// How far cell `at` lies past the edge `from`; cells before the edge count as on it.
    pub open spec fn past(at: u16, from: u16) -> int {
        if at < from {
            0
        } else {
            at - from
        }
    }

    /// The cursor at the character drawn in cell `x`, `y` of the pane `inner`, or at the nearest
    /// one before it.
    pub open spec fn moved_to(self, x: u16, y: u16, inner: Rect) -> NotesView {
        let row = least(self.scroll + Self::past(y, inner.y), self.lines.len() - 1);
        NotesView {
            row,
            col: least(Self::past(x, inner.x), self.lines[row].len() as int),
            ..self
        }
    }

    /// The cursor at the clicked character, nothing selected.
    pub open spec fn clicked(self, x: u16, y: u16, inner: Rect) -> NotesView {
        NotesView { anchor: None, ..self.moved_to(x, y, inner) }
    }

    /// The cursor at the character under the mouse; the anchor stays where the drag began.
    pub open spec fn dragged_to(self, x: u16, y: u16, inner: Rect) -> NotesView {
        let from = match self.anchor {
            Some(a) => a,
            None => (self.row, self.col),
        };
        NotesView { anchor: Some(from), ..self.moved_to(x, y, inner) }
    }

    /// The largest scroll position that still fills `height` rows.
    pub open spec fn last_page(self, height: u16) -> int {
        if self.lines.len() < height {
            0
        } else {
            self.lines.len() - height
        }
    }

    /// Scrolled by `delta` lines, between the top and the last full page.
    pub open spec fn scrolled_by(self, delta: int, height: u16) -> NotesView {
        let to = if self.scroll + delta < 0 {
            0
        } else {
            self.scroll + delta
        };
        NotesView { scroll: least(to, self.last_page(height)), ..self }
    }

    /// Scrolled as little as brings the cursor into `height` rows.
    pub open spec fn followed(self, height: u16) -> NotesView {
        let h = if height < 1 {
            1
        } else {
            height as int
        };
        if self.row < self.scroll {
            NotesView { scroll: self.row, ..self }
        } else if self.row >= self.scroll + h {
            NotesView { scroll: self.row + 1 - h, ..self }
        } else {
            self
        }
    }

    /// Line `idx` cut into pieces, each with whether it is selected. A selected part without
    /// characters shows as one space.
    pub open spec fn segments(self, idx: int) -> Seq<(Seq<char>, bool)> {
        let line = self.lines[idx];
        match self.selection() {
            Some((s, e)) if s.0 <= idx <= e.0 => {
                let n = line.len() as int;
                let start = if idx == s.0 {
                    s.1
                } else {
                    0
                };
                let end = if idx == e.0 {
                    e.1
                } else {
                    n
                };
                let mid = clip(line, start, end);
                let left = if start > 0 {
                    seq![(clip(line, 0, start), false)]
                } else {
                    Seq::empty()
                };
                let right = if end < n {
                    seq![(clip(line, end, n), false)]
                } else {
                    Seq::empty()
                };
                left.push((
                    if mid.len() == 0 {
                        seq![' ']
                    } else {
                        mid
                    },
                    true,
                )) + right
            },
            _ => seq![(line, false)],
        }
    }
}

impl View for Notes {
    type V = NotesView;

    open spec fn view(&self) -> NotesView {
        NotesView {
            lines: views(self.lines@),
            row: self.row as int,
            col: self.col as int,
            scroll: self.scroll as int,
            anchor: self.anchor_at(),
        }
    }
}

impl Default for Notes {
    /// A text without lines.
    fn default() -> (n: Notes)
        ensures
            n@ == (NotesView {
                lines: Seq::empty(),
                row: 0,
                col: 0,
                scroll: 0,
                anchor: None,
            }),
    {
        let n = Notes { lines: Vec::new(), row: 0, col: 0, scroll: 0, anchor: None };
        assert(n@.lines =~= Seq::empty());
        n
    }
}

impl Notes {
    /// Where the selection is anchored, if it is.
    pub open spec fn anchor_at(&self) -> Option<(int, int)> {
        match self.anchor {
            Some(a) => Some((a.0 as int, a.1 as int)),
            None => None,
        }
    }

    /// An empty text: one line without characters.
    pub fn new() -> (n: Notes)
        ensures
            n@ == NotesView::blank(),
    {
        let mut lines: Vec<String> = Vec::new();
        lines.push(String::new());
        let n = Notes { lines, row: 0, col: 0, scroll: 0, anchor: None };
        assert(n@.lines == seq![Seq::<char>::empty()]);
        n
    }

    fn line(&self) -> (l: &String)
        requires
            self.row < self.lines.len(),
        ensures
            l@ == self@.line(),
    {
        &self.lines[self.row]
    }

    /// The selected span, its ends in the order of the text.
    pub fn selection(&self) -> (s: Option<((usize, usize), (usize, usize))>)
        ensures
            span(s) == self@.selection(),
    {
        match self.anchor {
            Some(a) => {
                if a.0 == self.row && a.1 == self.col {
                    None
                } else if a.0 < self.row || (a.0 == self.row && a.1 < self.col) {
                    Some((a, (self.row, self.col)))
                } else {
                    Some(((self.row, self.col), a))
                }
            },
            None => None,
        }
    }

    /// Forgets the anchor.
    pub fn clear_selection(&mut self)
        ensures
            final(self)@ == (NotesView { anchor: None, ..old(self)@ }),
    {
        self.anchor = None;
    }

    /// Takes out what is selected; says whether anything was.
    pub fn delete_selection(&mut self) -> (any: bool)
        requires
            old(self)@.selection_fits(),
        ensures
            any == (old(self)@.selection() is Some),
            final(self)@ == old(self)@.without_selection(),
    {
        match self.selection() {
            None => false,
            Some((s, e)) => {
                let head = cut(&self.lines[s.0], 0, s.1);
                let tail = cut(&self.lines[e.0], e.1, width(&self.lines[e.0]));
                assert(e.0 < self.lines.len());
                let mut rest = self.lines.split_off(e.0 + 1);
                self.lines.truncate(s.0);
                self.lines.push(plus(&head, &tail));
                self.lines.append(&mut rest);
                self.row = s.0;
                self.col = s.1;
                self.anchor = None;
                assert(self@.lines == old(self)@.without_selection().lines);
                true
            },
        }
    }

    /// Line `idx` cut into pieces, each with whether it is selected.
    pub fn segments(&self, idx: usize) -> (out: Vec<(String, bool)>)
        requires
            idx < self.lines.len(),
        ensures
            pieces(out@) == self@.segments(idx as int),
    {
        let line = &self.lines[idx];
        let mut out: Vec<(String, bool)> = Vec::new();
        match self.selection() {
            Some((s, e)) if s.0 <= idx && idx <= e.0 => {
                let n = width(line);
                let start: usize = if idx == s.0 { s.1 } else { 0 };
                let end: usize = if idx == e.0 { e.1 } else { n };
                if start > 0 {
                    out.push((cut(line, 0, start), false));
                }
                let mut mid = cut(line, start, end);
                if mid.as_str().is_empty() {
                    mid.push(' ');
                }
                out.push((mid, true));
                if end < n {
                    out.push((cut(line, end, n), false));
                }
            },
            _ => {
                out.push((line.clone(), false));
            },
        }
        assert(pieces(out@) =~= self@.segments(idx as int));
        out
    }

    /// Whether there is a line to break, or to take something out of.
    pub fn can_cut(&self) -> (yes: bool)
        ensures
            yes == self@.can_cut(),
    {
        self.row < self.lines.len() && match self.selection() {
            Some((_, e)) => e.0 < self.lines.len(),
            None => true,
        }
    }

    /// Whether there is a line to type on, and a column behind the character typed.
    pub fn can_insert(&self) -> (yes: bool)
        ensures
            yes == self@.can_insert(),
    {
        if !self.can_cut() {
            return false;
        }
        match self.selection() {
            Some((s, e)) => {
                let head = cut(&self.lines[s.0], 0, s.1);
                let tail = cut(&self.lines[e.0], e.1, width(&self.lines[e.0]));
                assert(self@.without_selection().line() == head@ + tail@);
                s.1 < usize::MAX || s.1 as u128 <= width(&head) as u128 + width(&tail) as u128
            },
            None => self.col < usize::MAX || self.col <= width(self.line()),
        }
    }

    /// Whether there is something to take out left of the cursor, or it is at the start of the
    /// text.
    pub fn can_backspace(&self) -> (yes: bool)
        ensures
            yes == self@.can_backspace(),
    {
        match self.selection() {
            Some((_, e)) => e.0 < self.lines.len(),
            None => (self.row == 0 && self.col == 0) || (self.row < self.lines.len() && self.col
                <= width(self.line())),
        }
    }

    /// Whether there is a line before that of the cursor, where it goes there.
    pub fn can_go_up(&self) -> (yes: bool)
        ensures
            yes == self@.can_go_up(),
    {
        self.row == 0 || self.row <= self.lines.len()
    }

    /// Whether the cursor can be counted one line further.
    pub fn can_go_down(&self) -> (yes: bool)
        ensures
            yes == self@.can_go_down(),
    {
        self.row < self.lines.len() || self.row < usize::MAX
    }

    /// Types `ch` at the cursor, over what is selected.
    pub fn insert(&mut self, ch: char)
        requires
            old(self)@.can_insert(),
        ensures
            final(self)@ == old(self)@.inserted(ch),
    {
        self.delete_selection();
        let ghost t = self@;
        let mut line = cut(self.line(), 0, self.col);
        let tail = cut(self.line(), self.col, width(self.line()));
        line.push(ch);
        // The new character counts, so the cursor can stand behind it.
        let grown = width(&line);
        assert(t.col <= t.line().len() ==> grown == t.col + 1);
        self.lines[self.row] = plus(&line, &tail);
        self.col = self.col + 1;
        assert(self@.lines == old(self)@.inserted(ch).lines);
    }

    /// Breaks the line at the cursor, in place of what is selected.
    pub fn newline(&mut self)
        requires
            old(self)@.can_cut(),
        ensures
            final(self)@ == old(self)@.broken(),
    {
        self.delete_selection();
        let head = cut(self.line(), 0, self.col);
        let tail = cut(self.line(), self.col, width(self.line()));
        assert(self@.lines.len() == self.lines.len());
        self.lines[self.row] = head;
        self.lines.insert(self.row + 1, tail);
        self.row = self.row + 1;
        self.col = 0;
        assert(self@.lines == old(self)@.broken().lines);
    }

    /// Takes out what is selected, or else what stands left of the cursor.
    pub fn backspace(&mut self)
        requires
            old(self)@.can_backspace(),
        ensures
            final(self)@ == old(self)@.backspaced(),
    {
        if self.delete_selection() {
            return;
        }
        if self.col > 0 {
            let head = cut(self.line(), 0, self.col - 1);
            let tail = cut(self.line(), self.col, width(self.line()));
            assert(head@ + tail@ == self@.line().remove(self.col - 1));
            self.lines[self.row] = plus(&head, &tail);
            self.col = self.col - 1;
        } else if self.row > 0 {
            let cur = self.lines.remove(self.row);
            self.row = self.row - 1;
            self.col = width(self.line());
            self.lines[self.row] = plus(self.line(), &cur);
        }
        assert(self@.lines == old(self)@.backspaced().lines);
    }

    /// Takes out what is selected, or else what stands right of the cursor.
    pub fn delete(&mut self)
        requires
            old(self)@.can_cut(),
        ensures
            final(self)@ == old(self)@.deleted(),
    {
        if self.delete_selection() {
            return;
        }
        if self.col < width(self.line()) {
            let head = cut(self.line(), 0, self.col);
            let tail = cut(self.line(), self.col + 1, width(self.line()));
            assert(head@ + tail@ == self@.line().remove(self.col as int));
            self.lines[self.row] = plus(&head, &tail);
        } else if self.row + 1 < self.lines.len() {
            let next = self.lines.remove(self.row + 1);
            self.lines[self.row] = plus(self.line(), &next);
        }
        assert(self@.lines == old(self)@.deleted().lines);
    }

    /// Moves the cursor one character to the left.
    pub fn left(&mut self)
        requires
            old(self).col == 0 ==> old(self)@.can_go_up(),
        ensures
            final(self)@ == old(self)@.to_left(),
    {
        if self.col > 0 {
            self.col = self.col - 1;
        } else if self.row > 0 {
            self.row = self.row - 1;
            self.col = width(self.line());
        }
    }

    /// Moves the cursor one character to the right.
    pub fn right(&mut self)
        requires
            old(self).row < old(self).lines.len(),
        ensures
            final(self)@ == old(self)@.to_right(),
    {
        if self.col < width(self.line()) {
            self.col = self.col + 1;
        } else if self.row + 1 < self.lines.len() {
            self.row = self.row + 1;
            self.col = 0;
        }
    }

    /// Moves the cursor one line up.
    pub fn up(&mut self)
        requires
            old(self)@.can_go_up(),
        ensures
            final(self)@ == old(self)@.to_up(),
    {
        if self.row > 0 {
            self.row = self.row - 1;
            let n = width(self.line());
            if n < self.col {
                self.col = n;
            }
        }
    }

    /// Moves the cursor one line down.
    pub fn down(&mut self)
        requires
            old(self)@.can_go_down(),
        ensures
            final(self)@ == old(self)@.to_down(),
    {
        assert(self@.lines.len() == self.lines.len());
        if self.row + 1 < self.lines.len() {
            self.row = self.row + 1;
            let n = width(self.line());
            if n < self.col {
                self.col = n;
            }
        }
    }

    /// Moves the cursor to the start of its line.
    pub fn home(&mut self)
        ensures
            final(self)@ == (NotesView { col: 0, ..old(self)@ }),
    {
        self.col = 0;
    }

    /// Moves the cursor to the end of its line.
    pub fn end(&mut self)
        requires
            old(self).row < old(self).lines.len(),
        ensures
            final(self)@ == (NotesView { col: old(self)@.line().len() as int, ..old(self)@ }),
    {
        self.col = width(self.line());
    }

    fn move_to(&mut self, x: u16, y: u16, inner: Rect)
        requires
            old(self).lines.len() > 0,
        ensures
            final(self)@ == old(self)@.moved_to(x, y, inner),
    {
        let dy = y.saturating_sub(inner.y) as usize;
        let dx = x.saturating_sub(inner.x) as usize;
        let row = self.scroll.saturating_add(dy);
        let last: usize = self.lines.len() - 1;
        self.row = if row < last { row } else { last };
        let n = width(self.line());
        self.col = if dx < n { dx } else { n };
    }

    /// Puts the cursor at the clicked character and drops the selection.
    pub fn click(&mut self, x: u16, y: u16, inner: Rect)
        requires
            old(self).lines.len() > 0,
        ensures
            final(self)@ == old(self)@.clicked(x, y, inner),
    {
        self.move_to(x, y, inner);
        self.anchor = None;
    }

    /// Selects from where the drag began to the character under the mouse.
    pub fn drag_to(&mut self, x: u16, y: u16, inner: Rect)
        requires
            old(self).lines.len() > 0,
        ensures
            final(self)@ == old(self)@.dragged_to(x, y, inner),
    {
        if self.anchor.is_none() {
            self.anchor = Some((self.row, self.col));
        }
        self.move_to(x, y, inner);
    }

    /// Scrolls by `delta` lines, no further than the top and the last full page.
    pub fn scroll_by(&mut self, delta: isize, height: u16)
        ensures
            final(self)@ == old(self)@.scrolled_by(delta as int, height),
    {
        let max = self.lines.len().saturating_sub(height as usize);
        let to: usize = match self.scroll.checked_add_signed(delta) {
            Some(to) => to,
            None => if delta < 0 { 0 } else { usize::MAX },
        };
        self.scroll = if to < max { to } else { max };
    }

    /// Scrolls as little as brings the cursor into `height` rows.
    pub fn follow(&mut self, height: u16)
        ensures
            final(self)@ == old(self)@.followed(height),
    {
        let h: usize = if height < 1 { 1 } else { height as usize };
        if self.row < self.scroll {
            self.scroll = self.row;
        } else if self.row - self.scroll >= h {
            self.scroll = self.row - (h - 1);
        }
    }

    /// The cell of the pane `inner` that the cursor is drawn in, if it is in view.
    pub fn cursor_at(&self, inner: Rect) -> (at: Option<(u16, u16)>)
        requires
            self@.cell(inner) matches Some((x, y)) ==> x <= u16::MAX && y <= u16::MAX,
        ensures
            (match at {
                Some((x, y)) => Some((x as int, y as int)),
                None => None,
            }) == self@.cell(inner),
    {
        if self.row < self.scroll {
            return None;
        }
        let dy = self.row - self.scroll;
        if dy >= inner.height as usize {
            return None;
        }
        Some((inner.x + self.col as u16, inner.y + dy as u16))
    }

    /// Whether the text is one line without characters.
    pub fn is_empty(&self) -> (yes: bool)
        ensures
            yes == (self@.lines == seq![Seq::<char>::empty()]),
    {
        let yes = self.lines.len() == 1 && self.lines[0].as_str().is_empty();
        proof {
            let none = seq![Seq::<char>::empty()];
            if yes {
                assert(self@.lines[0] =~= none[0]);
                assert(self@.lines =~= none);
            } else if self@.lines == none {
                assert(self@.lines.len() == 1);
                assert(self@.lines[0] == none[0]);
            }
        }
        yes
    }
}

} // verus!
