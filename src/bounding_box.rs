use vstd::prelude::*;

verus! {

/// A pair of unsigned pixel coordinates.
#[derive(Clone, Copy, Debug, PartialEq, Eq, Structural)]
pub struct UVec2 {
    pub x: u32,
    pub y: u32,
}

/// `x` lies in the half-open span `start .. end`.
pub open spec fn in_span(start: u32, end: u32, x: int) -> bool {
    start <= x < end
}

pub open spec fn max_u32(a: u32, b: u32) -> u32 {
    if a >= b { a } else { b }
}

pub open spec fn min_u32(a: u32, b: u32) -> u32 {
    if a <= b { a } else { b }
}

impl UVec2 {
    pub fn new(x: u32, y: u32) -> (r: UVec2)
        ensures
            r.x == x,
            r.y == y,
    {
        UVec2 { x, y }
    }

    /// Component-wise maximum.
    pub fn max(self, other: UVec2) -> (r: UVec2)
        ensures
            r.x == max_u32(self.x, other.x),
            r.y == max_u32(self.y, other.y),
    {
        UVec2 {
            x: if self.x >= other.x { self.x } else { other.x },
            y: if self.y >= other.y { self.y } else { other.y },
        }
    }

    /// Component-wise minimum.
    pub fn min(self, other: UVec2) -> (r: UVec2)
        ensures
            r.x == min_u32(self.x, other.x),
            r.y == min_u32(self.y, other.y),
    {
        UVec2 {
            x: if self.x <= other.x { self.x } else { other.x },
            y: if self.y <= other.y { self.y } else { other.y },
        }
    }
}

/// An axis-aligned pixel rectangle covering the columns `start.x .. end.x` and
/// the rows `start.y .. end.y` (both half-open).
#[derive(Clone, Copy, Debug, PartialEq, Eq, Structural)]
pub struct BoundingBox {
    pub start: UVec2,
    pub end: UVec2,
}

impl BoundingBox {
    /// The pixel `(x, y)` lies in the rectangle.
    pub open spec fn contains(self, x: int, y: int) -> bool {
        self.start.x <= x < self.end.x && self.start.y <= y < self.end.y
    }

    /// No column is covered by both rectangles.
    pub open spec fn disjoint_columns(self, other: BoundingBox) -> bool {
        forall|x: int|
            !(#[trigger] in_span(self.start.x, self.end.x, x) && in_span(other.start.x, other.end.x, x))
    }

    /// No row is covered by both rectangles.
    pub open spec fn disjoint_rows(self, other: BoundingBox) -> bool {
        forall|y: int|
            !(#[trigger] in_span(self.start.y, self.end.y, y) && in_span(other.start.y, other.end.y, y))
    }

    /// The overlap of two rectangles: `None` when it holds no pixel, otherwise the
    /// component-wise maximum of the starts and minimum of the ends.
    pub open spec fn spec_intersect(self, other: BoundingBox) -> Option<BoundingBox> {
        let start = UVec2 {
            x: max_u32(self.start.x, other.start.x),
            y: max_u32(self.start.y, other.start.y),
        };
        let end = UVec2 {
            x: min_u32(self.end.x, other.end.x),
            y: min_u32(self.end.y, other.end.y),
        };
        if start.x < end.x && start.y < end.y {
            Some(BoundingBox { start, end })
        } else {
            None
        }
    }

    pub fn new(start: UVec2, end: UVec2) -> (r: BoundingBox)
        ensures
            r.start == start,
            r.end == end,
    {
        BoundingBox { start, end }
    }

    pub fn intersect(&self, other: &BoundingBox) -> (r: Option<BoundingBox>)
        ensures
            r == self.spec_intersect(*other),
    {
        let start = self.start.max(other.start);
        let end = self.end.min(other.end);
        if start.x < end.x && start.y < end.y {
            Some(BoundingBox { start, end })
        } else {
            None
        }
    }
}

/// Intersecting two rectangles does not depend on their order; it yields nothing
/// exactly when the rectangles share no column or share no row, and otherwise
/// yields a rectangle holding exactly the pixels that both hold.
pub proof fn lemma_intersect_symmetric(a: BoundingBox, b: BoundingBox)
    ensures
        a.spec_intersect(b) == b.spec_intersect(a),
        a.spec_intersect(b) is None <==> (a.disjoint_columns(b) || a.disjoint_rows(b)),
        a.spec_intersect(b) matches Some(c) ==> forall|x: int, y: int|
            #[trigger] c.contains(x, y) <==> (a.contains(x, y) && b.contains(x, y)),
{
    let sx = max_u32(a.start.x, b.start.x);
    let sy = max_u32(a.start.y, b.start.y);
    let ex = min_u32(a.end.x, b.end.x);
    let ey = min_u32(a.end.y, b.end.y);
    if sx < ex {
        assert(!a.disjoint_columns(b)) by {
            assert(in_span(a.start.x, a.end.x, sx as int) && in_span(b.start.x, b.end.x, sx as int));
        }
    }
    if sy < ey {
        assert(!a.disjoint_rows(b)) by {
            assert(in_span(a.start.y, a.end.y, sy as int) && in_span(b.start.y, b.end.y, sy as int));
        }
    }
}

} // verus!
