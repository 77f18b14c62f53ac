//! The dirty region: a bounding box of everything written since the last
//! flush, with an explicit empty state instead of an inverted-corner
//! sentinel.

use vstd::prelude::*;

verus! {

/// The bounding box of all pixels touched since the last flush, in physical
/// coordinates, with inclusive corners.
#[derive(Clone, Copy, Debug, PartialEq, Eq, Structural)]
pub enum DirtyRegion {
    /// Nothing written: a flush has nothing to send.
    Empty,
    /// All touched pixels lie within this box.
    Span {
        /// Leftmost touched column.
        min_x: u8,
        /// Topmost touched row.
        min_y: u8,
        /// Rightmost touched column (inclusive).
        max_x: u8,
        /// Bottommost touched row (inclusive).
        max_y: u8,
    },
}

impl DirtyRegion {
    /// Whether the region covers point `(x, y)`.
    pub open spec fn spec_contains(self, x: int, y: int) -> bool {
        match self {
            DirtyRegion::Empty => false,
            DirtyRegion::Span { min_x, min_y, max_x, max_y } => {
                min_x <= x <= max_x && min_y <= y <= max_y
            },
        }
    }

    /// The region grown to cover point `(x, y)`.
    pub open spec fn spec_include_point(self, x: u8, y: u8) -> DirtyRegion {
        self.spec_include_rect(x, y, x, y)
    }

    /// The region grown to cover the box with inclusive corners
    /// `(x0, y0)` and `(x1, y1)`.
    pub open spec fn spec_include_rect(self, x0: u8, y0: u8, x1: u8, y1: u8) -> DirtyRegion {
        match self {
            DirtyRegion::Empty => DirtyRegion::Span { min_x: x0, min_y: y0, max_x: x1, max_y: y1 },
            DirtyRegion::Span { min_x, min_y, max_x, max_y } => DirtyRegion::Span {
                min_x: if x0 < min_x {
                    x0
                } else {
                    min_x
                },
                min_y: if y0 < min_y {
                    y0
                } else {
                    min_y
                },
                max_x: if x1 > max_x {
                    x1
                } else {
                    max_x
                },
                max_y: if y1 > max_y {
                    y1
                } else {
                    max_y
                },
            },
        }
    }

    /// Grow the region to cover point `(x, y)`.
    pub fn include_point(self, x: u8, y: u8) -> (r: DirtyRegion)
        ensures
            r == self.spec_include_point(x, y),
    {
        self.include_rect(x, y, x, y)
    }

    /// Grow the region to cover the box with inclusive corners
    /// `(x0, y0)` and `(x1, y1)`.
    pub fn include_rect(self, x0: u8, y0: u8, x1: u8, y1: u8) -> (r: DirtyRegion)
        ensures
            r == self.spec_include_rect(x0, y0, x1, y1),
    {
        match self {
            DirtyRegion::Empty => DirtyRegion::Span { min_x: x0, min_y: y0, max_x: x1, max_y: y1 },
            DirtyRegion::Span { min_x, min_y, max_x, max_y } => DirtyRegion::Span {
                min_x: if x0 < min_x {
                    x0
                } else {
                    min_x
                },
                min_y: if y0 < min_y {
                    y0
                } else {
                    min_y
                },
                max_x: if x1 > max_x {
                    x1
                } else {
                    max_x
                },
                max_y: if y1 > max_y {
                    y1
                } else {
                    max_y
                },
            },
        }
    }
}

/// Growing the dirty region never drops a covered point, and the grown
/// region covers the whole new box: each write's footprint stays inside
/// every later region.
pub proof fn lemma_dirty_grow_monotone(d: DirtyRegion, x0: u8, y0: u8, x1: u8, y1: u8)
    ensures
        forall|a: int, b: int|
            d.spec_contains(a, b) ==> d.spec_include_rect(x0, y0, x1, y1).spec_contains(a, b),
        forall|a: int, b: int|
            x0 <= a <= x1 && y0 <= b <= y1 ==> d.spec_include_rect(x0, y0, x1, y1).spec_contains(
                a,
                b,
            ),
{
}

} // verus!
