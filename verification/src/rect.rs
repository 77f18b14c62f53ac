//! Axis-aligned rectangles in logical (pre-rotation) pixel space.

use vstd::prelude::*;

verus! {

/// A rectangle given by its top-left corner and its size.
#[derive(Clone, Copy, Debug, PartialEq, Eq, Structural)]
pub struct Rect {
    /// Leftmost column.
    pub x: i32,
    /// Topmost row.
    pub y: i32,
    /// Width in pixels.
    pub width: u32,
    /// Height in pixels.
    pub height: u32,
}

impl Rect {
    /// Construct a rectangle.
    pub fn new(x: i32, y: i32, width: u32, height: u32) -> (r: Rect)
        ensures
            r == (Rect { x, y, width, height }),
    {
        Rect { x, y, width, height }
    }

    /// Whether the rectangle covers point `(a, b)`.
    pub open spec fn spec_contains(self, a: int, b: int) -> bool {
        &&& self.x <= a < self.x + self.width
        &&& self.y <= b < self.y + self.height
    }

    /// The rectangle clipped to the box `0 <= x < bw, 0 <= y < bh`, as
    /// half-open bounds `(x0, y0, x1, y1)`; an empty intersection is
    /// normalized to all zeroes.
    pub open spec fn spec_clip(self, bw: int, bh: int) -> (int, int, int, int) {
        let x0 = if self.x as int >= 0 {
            self.x as int
        } else {
            0
        };
        let y0 = if self.y as int >= 0 {
            self.y as int
        } else {
            0
        };
        let x1 = if self.x + self.width <= bw {
            self.x + self.width
        } else {
            bw
        };
        let y1 = if self.y + self.height <= bh {
            self.y + self.height
        } else {
            bh
        };
        if x0 < x1 && y0 < y1 {
            (x0, y0, x1, y1)
        } else {
            (0, 0, 0, 0)
        }
    }

    /// Clip the rectangle against the box `0 <= x < bw, 0 <= y < bh`.
    ///
    /// The result is exactly the points of the rectangle inside the box.
    pub fn clip(&self, bw: u16, bh: u16) -> (r: (u32, u32, u32, u32))
        ensures
            (r.0 as int, r.1 as int, r.2 as int, r.3 as int) == self.spec_clip(
                bw as int,
                bh as int,
            ),
            r.0 <= r.2 <= bw,
            r.1 <= r.3 <= bh,
            forall|a: int, b: int|
                (r.0 <= a < r.2 && r.1 <= b < r.3) <==> (self.spec_contains(a, b) && 0 <= a < bw
                    && 0 <= b < bh),
    {
        let x0: i64 = if self.x >= 0 {
            self.x as i64
        } else {
            0
        };
        let y0: i64 = if self.y >= 0 {
            self.y as i64
        } else {
            0
        };
        let xe: i64 = self.x as i64 + self.width as i64;
        let ye: i64 = self.y as i64 + self.height as i64;
        let x1: i64 = if xe <= bw as i64 {
            xe
        } else {
            bw as i64
        };
        let y1: i64 = if ye <= bh as i64 {
            ye
        } else {
            bh as i64
        };
        if x0 < x1 && y0 < y1 {
            (x0 as u32, y0 as u32, x1 as u32, y1 as u32)
        } else {
            (0, 0, 0, 0)
        }
    }
}

} // verus!
