//! Positions on the terminal: rectangles of cells and the four directions.
use vstd::prelude::*;

verus! {

/// A direction in which the focus, a boundary or a terminal can be moved.
#[derive(Clone, Copy, Debug, PartialEq, Eq, Structural)]
pub enum Direction {
    Up,
    Down,
    Left,
    Right,
}

impl Direction {
    /// Left and right are the directions across a vertical boundary.
    pub open spec fn horizontal(self) -> bool {
        self is Left || self is Right
    }

    /// Right and down are the directions in which coordinates grow.
    pub open spec fn forward(self) -> bool {
        self is Right || self is Down
    }

    pub fn is_horizontal(self) -> (result: bool)
        ensures
            result == self.horizontal(),
    {
        matches!(self, Direction::Left | Direction::Right)
    }

    pub fn is_forward(self) -> (result: bool)
        ensures
            result == self.forward(),
    {
        matches!(self, Direction::Right | Direction::Down)
    }
}

/// A rectangle of cells; `x` and `y` are its top left corner.
#[derive(Clone, Copy, Debug, PartialEq, Eq, Structural)]
pub struct Rect {
    pub x: usize,
    pub y: usize,
    pub width: usize,
    pub height: usize,
}

/// A rectangle over the mathematical integers.
pub struct Area {
    pub x: int,
    pub y: int,
    pub width: int,
    pub height: int,
}

impl View for Rect {
    type V = Area;

    open spec fn view(&self) -> Area {
        Area {
            x: self.x as int,
            y: self.y as int,
            width: self.width as int,
            height: self.height as int,
        }
    }
}

impl Area {
    /// The rectangle holds the cell in column `px` and row `py`.
    pub open spec fn holds(self, px: int, py: int) -> bool {
        self.x <= px < self.x + self.width && self.y <= py < self.y + self.height
    }

    /// The rectangle lies inside `outer`.
    pub open spec fn inside(self, outer: Area) -> bool {
        &&& outer.x <= self.x
        &&& outer.y <= self.y
        &&& self.x + self.width <= outer.x + outer.width
        &&& self.y + self.height <= outer.y + outer.height
    }

    /// The column just past the right edge.
    pub open spec fn right(self) -> int {
        self.x + self.width
    }

    /// The row just past the lower edge.
    pub open spec fn bottom(self) -> int {
        self.y + self.height
    }

    /// The rectangle with the border that every pane needs: at least two columns and two rows.
    pub open spec fn with_border(self) -> Area {
        Area {
            width: if self.width < 2 {
                2
            } else {
                self.width
            },
            height: if self.height < 2 {
                2
            } else {
                self.height
            },
            ..self
        }
    }
}

} // verus!
