//! Rectangles and terminal sizes: the coordinate model every other module
//! speaks of. Coordinates are zero-based cells; a rectangle occupies columns
//! `x .. x + width` and rows `y .. y + height`.

use vstd::prelude::*;

verus! {

/// A rectangular screen region in cell coordinates.
#[derive(Clone, Copy, Debug, PartialEq, Eq, Structural)]
pub struct Rect {
    pub x: u16,
    pub y: u16,
    pub width: u16,
    pub height: u16,
}

/// The size of the controlling terminal, as last polled.
#[derive(Clone, Copy, Debug, PartialEq, Eq, Structural)]
pub struct TerminalSize {
    pub rows: u16,
    pub cols: u16,
}

impl Rect {
    /// A rectangle is representable when its far edges still fit in `u16`.
    pub open spec fn wf(self) -> bool {
        self.x + self.width <= u16::MAX && self.y + self.height <= u16::MAX
    }

    /// Does cell `(cx, cy)` lie inside this rectangle?
    pub open spec fn contains(self, cx: int, cy: int) -> bool {
        self.x <= cx < self.x + self.width && self.y <= cy < self.y + self.height
    }

    /// Is `self` entirely inside `outer`?
    pub open spec fn inside(self, outer: Rect) -> bool {
        outer.x <= self.x
            && self.x + self.width <= outer.x + outer.width
            && outer.y <= self.y
            && self.y + self.height <= outer.y + outer.height
    }

    /// Do the two rectangles share no cell?
    pub open spec fn disjoint(self, other: Rect) -> bool {
        forall|cx: int, cy: int| !(self.contains(cx, cy) && other.contains(cx, cy))
    }
}

impl TerminalSize {
    /// The full-screen rectangle for this terminal size.
    pub fn full_rect(self) -> (r: Rect)
        ensures
            r == (Rect { x: 0, y: 0, width: self.cols, height: self.rows }),
    {
        Rect { x: 0, y: 0, width: self.cols, height: self.rows }
    }
}

} // verus!
