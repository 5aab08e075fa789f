use vstd::prelude::*;

verus! {

/// Axis-aligned rectangle over tile coordinates. Room candidates keep
/// `x1 < x2` and `y1 < y2`; carve regions may be degenerate.
#[derive(Clone, Copy, Debug, PartialEq, Eq, Structural)]
pub struct Rect {
    pub x1: i32,
    pub x2: i32,
    pub y1: i32,
    pub y2: i32,
}

impl Rect {
    /// A room candidate has positive extent on both axes.
    pub open spec fn proper(self) -> bool {
        self.x1 < self.x2 && self.y1 < self.y2
    }

    /// Boundary-inclusive intersection: rectangles that merely touch count as
    /// intersecting, so accepted rooms stay separated by at least one tile.
    pub open spec fn touches(self, other: Rect) -> bool {
        self.x1 <= other.x2 && self.x2 >= other.x1 && self.y1 <= other.y2 && self.y2 >= other.y1
    }

    pub open spec fn center_spec(self) -> (int, int) {
        ((self.x1 + self.x2) / 2, (self.y1 + self.y2) / 2)
    }

    pub fn new(x: i32, y: i32, w: i32, h: i32) -> (r: Rect)
        requires
            i32::MIN <= x + w <= i32::MAX,
            i32::MIN <= y + h <= i32::MAX,
        ensures
            r.x1 == x,
            r.y1 == y,
            r.x2 == x + w,
            r.y2 == y + h,
    {
        Rect { x1: x, y1: y, x2: x + w, y2: y + h }
    }

    pub fn center(&self) -> (c: (i32, i32))
        requires
            0 <= self.x1 <= self.x2 <= 0x3fff_ffff,
            0 <= self.y1 <= self.y2 <= 0x3fff_ffff,
        ensures
            c.0 == self.center_spec().0,
            c.1 == self.center_spec().1,
    {
        let center_x = (self.x1 + self.x2) / 2;
        let center_y = (self.y1 + self.y2) / 2;
        (center_x, center_y)
    }

    pub fn intersects_with(&self, other: &Rect) -> (r: bool)
        ensures
            r == self.touches(*other),
    {
        (self.x1 <= other.x2) && (self.x2 >= other.x1) && (self.y1 <= other.y2) && (self.y2
            >= other.y1)
    }
}

} // verus!
