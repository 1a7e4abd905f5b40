//! Plain rectangle values, the coordinate language of the atlas.

use vstd::prelude::*;

verus! {

/// An axis-aligned rectangle in pixel coordinates, relative to the top-left
/// origin of the surface it refers to.
#[derive(Clone, Copy, PartialEq, Eq, Structural, Debug)]
pub struct Rect {
    pub x: u32,
    pub y: u32,
    pub width: u32,
    pub height: u32,
}

impl Rect {
    /// Two rectangles are disjoint when they share no pixel: one lies fully
    /// to the left of, to the right of, above, or below the other.
    pub open spec fn disjoint(self, other: Rect) -> bool {
        ||| self.x + self.width <= other.x
        ||| other.x + other.width <= self.x
        ||| self.y + self.height <= other.y
        ||| other.y + other.height <= self.y
    }

    /// The rectangle lies fully inside `[0, w) x [0, h)`.
    pub open spec fn within(self, w: int, h: int) -> bool {
        self.x + self.width <= w && self.y + self.height <= h
    }

    /// The point `(px, py)` lies inside the rectangle.
    pub open spec fn covers(self, px: int, py: int) -> bool {
        self.x <= px < self.x + self.width && self.y <= py < self.y + self.height
    }

    pub fn new(x: u32, y: u32, width: u32, height: u32) -> (r: Rect)
        ensures
            r == (Rect { x, y, width, height }),
    {
        Rect { x, y, width, height }
    }

    /// Disjoint rectangles have no common point.
    pub proof fn lemma_disjoint_no_common_point(self, other: Rect, px: int, py: int)
        requires
            self.disjoint(other),
            self.covers(px, py),
        ensures
            !other.covers(px, py),
    {
    }
}

} // verus!
