//! Rectangles of screen cells.

use ratatui::layout::{Constraint, Layout};
use vstd::prelude::*;

verus! {

/// A rectangle of cells: its top left corner and its size.
#[derive(Clone, Copy, Debug, PartialEq, Eq, Structural)]
pub struct Rect {
    pub x: u16,
    pub y: u16,
    pub width: u16,
    pub height: u16,
}

/// `a + b`, or the largest coordinate if that is less.
pub open spec fn capped(a: int, b: int) -> int {
    if a + b <= u16::MAX {
        a + b
    } else {
        u16::MAX as int
    }
}

impl Rect {
    /// The column right of the rectangle.
    pub open spec fn right_edge(self) -> int {
        capped(self.x as int, self.width as int)
    }

    /// The row below the rectangle.
    pub open spec fn bottom_edge(self) -> int {
        capped(self.y as int, self.height as int)
    }

    /// The cell in column `x`, row `y` lies in the rectangle.
    pub open spec fn covers(self, x: int, y: int) -> bool {
        self.x <= x < self.right_edge() && self.y <= y < self.bottom_edge()
    }

    /// The rectangle less `h` columns at either side and `v` rows at top and bottom; empty, in the
    /// corner of the screen, if it has not that many.
    pub open spec fn shrunk(self, h: int, v: int) -> Rect {
        let both = capped(h, h);
        let ends = capped(v, v);
        if self.width < both || self.height < ends {
            Rect { x: 0, y: 0, width: 0, height: 0 }
        } else {
            Rect {
                x: capped(self.x as int, h) as u16,
                y: capped(self.y as int, v) as u16,
                width: (self.width - both) as u16,
                height: (self.height - ends) as u16,
            }
        }
    }

    /// What is left of the rectangle inside a frame one cell wide.
    pub open spec fn within_frame(self) -> Rect {
        let x = capped(self.x as int, 1);
        let y = capped(self.y as int, 1);
        Rect {
            x: (if x < self.right_edge() {
                x
            } else {
                self.right_edge()
            }) as u16,
            y: (if y < self.bottom_edge() {
                y
            } else {
                self.bottom_edge()
            }) as u16,
            width: (if self.width < 2 {
                0
            } else {
                self.width - 2
            }) as u16,
            height: (if self.height < 2 {
                0
            } else {
                self.height - 2
            }) as u16,
        }
    }

    /// The rectangle at column `x`, row `y`; its size stops at the last coordinate.
    pub open spec fn cut_at_the_edge(x: u16, y: u16, width: u16, height: u16) -> Rect {
        Rect {
            x,
            y,
            width: (capped(x as int, width as int) - x) as u16,
            height: (capped(y as int, height as int) - y) as u16,
        }
    }

    /// The rectangle at column `x`, row `y`; its size stops at the last coordinate.
    pub fn new(x: u16, y: u16, width: u16, height: u16) -> (r: Rect)
        ensures
            r == Rect::cut_at_the_edge(x, y, width, height),
    {
        Rect {
            x,
            y,
            width: x.saturating_add(width) - x,
            height: y.saturating_add(height) - y,
        }
    }

    /// The empty rectangle in the corner of the screen.
    pub fn zero() -> (r: Rect)
        ensures
            r == (Rect { x: 0, y: 0, width: 0, height: 0 }),
    {
        Rect { x: 0, y: 0, width: 0, height: 0 }
    }

    /// The column right of the rectangle.
    pub fn right(self) -> (x: u16)
        ensures
            x == self.right_edge(),
    {
        self.x.saturating_add(self.width)
    }

    /// The row below the rectangle.
    pub fn bottom(self) -> (y: u16)
        ensures
            y == self.bottom_edge(),
    {
        self.y.saturating_add(self.height)
    }

    /// Whether the cell in column `x`, row `y` lies in the rectangle.
    pub fn contains(self, x: u16, y: u16) -> (yes: bool)
        ensures
            yes == self.covers(x as int, y as int),
    {
        x >= self.x && x < self.right() && y >= self.y && y < self.bottom()
    }

    /// The rectangle less `h` columns at either side and `v` rows at top and bottom.
    pub fn inner(self, h: u16, v: u16) -> (r: Rect)
        ensures
            r == self.shrunk(h as int, v as int),
    {
        let both = h.saturating_add(h);
        let ends = v.saturating_add(v);
        if self.width < both || self.height < ends {
            Rect::zero()
        } else {
            Rect {
                x: self.x.saturating_add(h),
                y: self.y.saturating_add(v),
                width: self.width - both,
                height: self.height - ends,
            }
        }
    }

    /// What is left of the rectangle inside a frame one cell wide.
    pub fn framed(self) -> (r: Rect)
        ensures
            r == self.within_frame(),
    {
        let x = self.x.saturating_add(1);
        let y = self.y.saturating_add(1);
        let right = self.right();
        let bottom = self.bottom();
        Rect {
            x: if x < right { x } else { right },
            y: if y < bottom { y } else { bottom },
            width: self.width.saturating_sub(2),
            height: self.height.saturating_sub(2),
        }
    }
}

/// Which way a rectangle is divided.
#[derive(Clone, Copy, Debug, PartialEq, Eq, Structural)]
pub enum Direction {
    /// Into rectangles one below the other.
    Down,
    /// Into rectangles side by side.
    Across,
}

/// How much of a rectangle a part of it should get.
#[derive(Clone, Copy, Debug, PartialEq, Eq, Structural)]
pub enum Size {
    /// So many cells at least.
    Min(u16),
    /// So many cells.
    Length(u16),
    /// So many hundredths.
    Percentage(u16),
}

impl Rect {
    /// Where the rectangle begins along `way`.
    pub open spec fn start(self, way: Direction) -> int {
        match way {
            Direction::Down => self.y as int,
            Direction::Across => self.x as int,
        }
    }

    /// How far the rectangle reaches along `way`.
    pub open spec fn extent(self, way: Direction) -> int {
        match way {
            Direction::Down => self.height as int,
            Direction::Across => self.width as int,
        }
    }

    /// Nothing of the rectangle lies beyond the last coordinate along `way`.
    pub open spec fn regular(self, way: Direction) -> bool {
        self.start(way) + self.extent(way) <= u16::MAX
    }

    /// The rectangle lies in the columns of `area` and is as wide, or in its rows and is as high,
    /// and reaches beyond `area` nowhere.
    pub open spec fn part_of(self, area: Rect, way: Direction) -> bool {
        &&& match way {
            Direction::Down => self.x == area.x && self.width == area.width,
            Direction::Across => self.y == area.y && self.height == area.height,
        }
        &&& area.start(way) <= self.start(way)
        &&& self.start(way) + self.extent(way) <= capped(area.start(way), area.extent(way))
    }
}

/// The cells that the lengths among `sizes` ask for.
pub open spec fn lengths(sizes: Seq<Size>) -> int
    decreases sizes.len(),
{
    if sizes.len() == 0 {
        0
    } else {
        lengths(sizes.drop_last()) + match sizes.last() {
            Size::Length(n) => n as int,
            _ => 0,
        }
    }
}

/// The hundredths that the percentages among `sizes` ask for.
pub open spec fn hundredths(sizes: Seq<Size>) -> int
    decreases sizes.len(),
{
    if sizes.len() == 0 {
        0
    } else {
        hundredths(sizes.drop_last()) + match sizes.last() {
            Size::Percentage(p) => p as int,
            _ => 0,
        }
    }
}

/// All of `sizes` are lengths but number `k`, which takes what is left.
pub open spec fn lengths_but(sizes: Seq<Size>, k: int) -> bool {
    &&& 0 <= k < sizes.len()
    &&& sizes[k] == Size::Min(0)
    &&& forall|j: int| 0 <= j < sizes.len() && j != k ==> #[trigger] sizes[j] is Length
}

/// All of `sizes` are lengths but one, which takes what is left.
pub open spec fn has_rest(sizes: Seq<Size>) -> bool {
    exists|k: int| lengths_but(sizes, k)
}

/// All of `sizes` are percentages, of a hundred in all.
pub open spec fn hundred(sizes: Seq<Size>) -> bool {
    &&& hundredths(sizes) == 100
    &&& forall|j: int| 0 <= j < sizes.len() ==> #[trigger] sizes[j] is Percentage
}

/// `parts` fill `area` one after the other along `way`.
pub open spec fn fill(area: Rect, way: Direction, parts: Seq<Rect>) -> bool {
    &&& parts.first().start(way) == area.start(way)
    &&& parts.last().start(way) + parts.last().extent(way) == area.start(way) + area.extent(way)
    &&& forall|i: int, j: int|
        #![trigger parts[i], parts[j]]
        0 <= i && j == i + 1 && j < parts.len() ==> parts[j].start(way) == parts[i].start(way)
            + parts[i].extent(way)
}

/// `parts` can be what dividing `area` for `sizes` gives: a part of it for each size. Lengths that
/// there is room for are kept to the cell where one other part takes what is left; a single length
/// that there is no room for gets all there is; percentages of a hundred in all end at the nearest
/// cell.
pub open spec fn divides(area: Rect, way: Direction, sizes: Seq<Size>, parts: Seq<Rect>) -> bool {
    &&& parts.len() == sizes.len()
    &&& forall|i: int| 0 <= i < parts.len() ==> (#[trigger] parts[i]).part_of(area, way)
    &&& area.regular(way) && lengths(sizes) <= area.extent(way) && has_rest(sizes) ==> {
        &&& fill(area, way, parts)
        &&& forall|i: int|
            0 <= i < parts.len() && sizes[i] is Length ==> (#[trigger] parts[i]).extent(way)
                == sizes[i]->Length_0
    }
    &&& area.regular(way) && lengths(sizes) > area.extent(way) && sizes.len() == 2 && has_rest(
        sizes,
    ) ==> {
        &&& fill(area, way, parts)
        &&& forall|i: int|
            0 <= i < parts.len() && sizes[i] is Length ==> (#[trigger] parts[i]).extent(way)
                == area.extent(way)
    }
    &&& area.regular(way) && hundred(sizes) ==> {
        &&& fill(area, way, parts)
        &&& forall|i: int|
            0 <= i < parts.len() ==> (#[trigger] parts[i]).start(way) == area.start(way) + (
            hundredths(sizes.take(i)) * area.extent(way) + 50) / 100
    }
}

/// `ratatui::layout::Layout::split` divides the area into one part for each size. It asks its
/// solver that every part lie in the area, and rounds to cells; that is claimed of every division.
/// The solver puts sizes before filling up, and filling up before space at the end: where lengths
/// with one part for the rest, or percentages of a hundred, leave it one way to meet them all, that
/// one is claimed. A single length beside the rest that asks for more than there is comes nearest
/// to what it asks for with the whole area. Where there is too little room for several lengths, it
/// is open which of them gives way, and nothing is claimed of it.
#[verifier::external_body]
pub(crate) fn divide(area: Rect, way: Direction, sizes: &Vec<Size>) -> (parts: Vec<Rect>)
    ensures
        divides(area, way, sizes@, parts@),
{
    let way = match way {
        Direction::Down => ratatui::layout::Direction::Vertical,
        Direction::Across => ratatui::layout::Direction::Horizontal,
    };
    let sizes = sizes.iter().map(|s| match s {
        Size::Min(n) => Constraint::Min(*n),
        Size::Length(n) => Constraint::Length(*n),
        Size::Percentage(n) => Constraint::Percentage(*n),
    });
    let Rect { x, y, width, height } = area;
    let area = ratatui::layout::Rect { x, y, width, height };
    let parts = Layout::new(way, sizes).split(area);
    parts.iter().map(|r| Rect { x: r.x, y: r.y, width: r.width, height: r.height }).collect()
}

} // verus!
