//! Points and axis-aligned rectangles: the geometry under the spatial index.

use vstd::prelude::*;

verus! {

/// Coordinates are kept within this magnitude so that every sum or
/// difference of two in-range coordinates still fits in an `i64`.
pub const COORD_LIMIT: i64 = 0x2000_0000_0000_0000;

/// A 2D coordinate. Coordinates are exact integers: two points are equal
/// exactly when both components are equal.
#[derive(Clone, Copy, Debug, PartialEq, Eq, Structural)]
pub struct Point {
    pub x: i64,
    pub y: i64,
}

/// The midpoint used when a range `[start, end]` is halved: the left half is
/// `[start, mid_of(start, end)]`, the right half is `[mid_of(start, end), end]`.
pub open spec fn mid_of(start: int, end: int) -> int {
    start + (end - start) / 2
}

impl Point {
    /// Both coordinates within the magnitude bound.
    pub open spec fn in_range(self) -> bool {
        &&& -COORD_LIMIT <= self.x <= COORD_LIMIT
        &&& -COORD_LIMIT <= self.y <= COORD_LIMIT
    }

    /// True when `self` lies in the rectangle spanned by `start` and `end`,
    /// inclusive on all four edges.
    pub open spec fn spec_in_area(self, start: Point, end: Point) -> bool {
        &&& start.x <= self.x <= end.x
        &&& start.y <= self.y <= end.y
    }

    pub fn new(x: i64, y: i64) -> (p: Point)
        ensures
            p == (Point { x, y }),
    {
        Point { x, y }
    }

    /// Which half of the range `[start, end]` a coordinate falls in.
    /// Returns the half's bounds and its index: 0 for the left half,
    /// 1 for the right. A coordinate exactly on the midpoint goes left.
    pub fn find_subrange(coord: i64, start: i64, end: i64) -> (r: (i64, i64, usize))
        requires
            -COORD_LIMIT <= start <= end <= COORD_LIMIT,
        ensures
            coord <= mid_of(start as int, end as int) ==> r == (
                start,
                (mid_of(start as int, end as int) as i64),
                0usize,
            ),
            coord > mid_of(start as int, end as int) ==> r == (
                (mid_of(start as int, end as int) as i64),
                end,
                1usize,
            ),
    {
        let middle: i64 = start + (end - start) / 2;
        if coord <= middle {
            (start, middle, 0)
        } else {
            (middle, end, 1)
        }
    }

    /// Check whether the point is inside the given rectangle (inclusive).
    pub fn in_area(&self, start: Point, end: Point) -> (r: bool)
        ensures
            r == self.spec_in_area(start, end),
    {
        self.x >= start.x && self.x <= end.x && self.y >= start.y && self.y <= end.y
    }
}

/// The midpoint of an ordered pair lies between its ends.
pub proof fn lemma_mid_between(start: int, end: int)
    requires
        start <= end,
    ensures
        start <= mid_of(start, end) <= end,
{
}

/// An axis-aligned rectangle, given by its corner of minimums `start` and
/// its corner of maximums `end`. Containment is inclusive on every edge.
///
/// The constructors require ordered, in-range corners (`wf`): an inverted
/// rectangle is ruled out at the contract level rather than carried through
/// the geometry, and the bound on coordinates keeps every midpoint and
/// difference the geometry computes inside `i64`.
#[derive(Clone, Copy, Debug, PartialEq, Eq, Structural)]
pub struct Boundry {
    pub start: Point,
    pub end: Point,
}

impl Boundry {
    /// Corners in range and ordered: the rectangle is not inverted.
    pub open spec fn wf(self) -> bool {
        &&& self.start.in_range()
        &&& self.end.in_range()
        &&& self.start.x <= self.end.x
        &&& self.start.y <= self.end.y
    }

    pub open spec fn spec_contains(self, p: Point) -> bool {
        p.spec_in_area(self.start, self.end)
    }

    pub open spec fn mid_x(self) -> int {
        mid_of(self.start.x as int, self.end.x as int)
    }

    pub open spec fn mid_y(self) -> int {
        mid_of(self.start.y as int, self.end.y as int)
    }

    /// The quadrant with index `i`, under the fixed numbering
    /// 0 = (low x, low y), 1 = (high x, low y), 2 = (low x, high y),
    /// 3 = (high x, high y).
    pub open spec fn spec_quad(self, i: int) -> Boundry {
        let mx = self.mid_x() as i64;
        let my = self.mid_y() as i64;
        if i == 0 {
            Boundry { start: self.start, end: Point { x: mx, y: my } }
        } else if i == 1 {
            Boundry { start: Point { x: mx, y: self.start.y }, end: Point { x: self.end.x, y: my } }
        } else if i == 2 {
            Boundry { start: Point { x: self.start.x, y: my }, end: Point { x: mx, y: self.end.y } }
        } else {
            Boundry { start: Point { x: mx, y: my }, end: self.end }
        }
    }

    /// The index of the quadrant a point is assigned to. A coordinate
    /// exactly on a midpoint goes to the lower-index side, so the
    /// assignment is a function of the point: every point gets exactly
    /// one quadrant, even on the shared edges.
    pub open spec fn spec_index(self, p: Point) -> int {
        (if p.x <= self.mid_x() {
            0int
        } else {
            1int
        }) + (if p.y <= self.mid_y() {
            0int
        } else {
            2int
        })
    }

    /// Halving makes progress on both axes: each quadrant is strictly
    /// smaller than the whole. A rectangle below this size keeps all its
    /// points in one bucket.
    pub open spec fn spec_splittable(self) -> bool {
        &&& self.end.x - self.start.x >= 2
        &&& self.end.y - self.start.y >= 2
    }

    /// Width plus height: the termination measure for descending into
    /// quadrants.
    pub open spec fn size(self) -> int {
        self.end.x - self.start.x + self.end.y - self.start.y
    }

    /// The two rectangles share at least one point (both taken as closed
    /// rectangles): no axis separates them.
    pub open spec fn spec_overlaps(self, other: Boundry) -> bool {
        &&& self.start.x <= other.end.x
        &&& other.start.x <= self.end.x
        &&& self.start.y <= other.end.y
        &&& other.start.y <= self.end.y
    }

    pub open spec fn spec_completely_inside(self, other: Boundry) -> bool {
        &&& self.start.spec_in_area(other.start, other.end)
        &&& self.end.spec_in_area(other.start, other.end)
    }

    /// Construct a rectangle from two points.
    pub fn new(start: Point, end: Point) -> (r: Boundry)
        requires
            (Boundry { start, end }).wf(),
        ensures
            r == (Boundry { start, end }),
    {
        Boundry { start, end }
    }

    /// Construct a rectangle from the coordinates of its two corners,
    /// minimums first.
    pub fn from_coords(start_x: i64, start_y: i64, end_x: i64, end_y: i64) -> (r: Boundry)
        requires
            (Boundry {
                start: Point { x: start_x, y: start_y },
                end: Point { x: end_x, y: end_y },
            }).wf(),
        ensures
            r == (Boundry {
                start: Point { x: start_x, y: start_y },
                end: Point { x: end_x, y: end_y },
            }),
    {
        Boundry { start: Point { x: start_x, y: start_y }, end: Point { x: end_x, y: end_y } }
    }

    /// Check whether a given point is contained in the rectangle.
    pub fn contains(&self, p: Point) -> (r: bool)
        ensures
            r == self.spec_contains(p),
    {
        p.in_area(self.start, self.end)
    }

    /// Split the rectangle at the midpoint of both axes into four
    /// quadrants, in the fixed index order of `spec_quad`.
    pub fn split(&self) -> (r: [Boundry; 4])
        requires
            self.wf(),
        ensures
            r@[0] == self.spec_quad(0),
            r@[1] == self.spec_quad(1),
            r@[2] == self.spec_quad(2),
            r@[3] == self.spec_quad(3),
    {
        let mx: i64 = self.start.x + (self.end.x - self.start.x) / 2;
        let my: i64 = self.start.y + (self.end.y - self.start.y) / 2;
        [
            Boundry { start: self.start, end: Point { x: mx, y: my } },
            Boundry { start: Point { x: mx, y: self.start.y }, end: Point { x: self.end.x, y: my } },
            Boundry { start: Point { x: self.start.x, y: my }, end: Point { x: mx, y: self.end.y } },
            Boundry { start: Point { x: mx, y: my }, end: self.end },
        ]
    }

    /// The quadrant a point falls in and that quadrant's index,
    /// consistent with `split`.
    pub fn find_subarea(&self, p: Point) -> (r: (Boundry, usize))
        requires
            self.wf(),
        ensures
            r.1 < 4,
            r.1 as int == self.spec_index(p),
            r.0 == self.spec_quad(r.1 as int),
    {
        let (start_x, end_x, index_x) = Point::find_subrange(p.x, self.start.x, self.end.x);
        let (start_y, end_y, index_y) = Point::find_subrange(p.y, self.start.y, self.end.y);
        let index = index_y * 2 + index_x;
        (
            Boundry { start: Point { x: start_x, y: start_y }, end: Point { x: end_x, y: end_y } },
            index,
        )
    }

    /// Whether the other rectangle overlaps this one. Uses the
    /// separating-axis test, so it is exact for closed rectangles: it
    /// returns true exactly when the two share at least one point.
    pub fn overlaps(&self, other: Boundry) -> (r: bool)
        ensures
            r == self.spec_overlaps(other),
    {
        self.start.x <= other.end.x && other.start.x <= self.end.x && self.start.y <= other.end.y
            && other.start.y <= self.end.y
    }

    /// Whether this rectangle lies completely inside the other.
    pub fn completely_inside(&self, other: Boundry) -> (r: bool)
        ensures
            r == self.spec_completely_inside(other),
    {
        self.start.in_area(other.start, other.end) && self.end.in_area(other.start, other.end)
    }

    /// Whether the rectangle is large enough on both axes for a split to
    /// make progress.
    pub(crate) fn splittable(&self) -> (r: bool)
        requires
            self.wf(),
        ensures
            r == self.spec_splittable(),
    {
        self.end.x - self.start.x >= 2 && self.end.y - self.start.y >= 2
    }
}

/// Every quadrant of a well-formed rectangle is well formed.
pub proof fn lemma_quad_wf(b: Boundry, i: int)
    requires
        b.wf(),
        0 <= i < 4,
    ensures
        b.spec_quad(i).wf(),
{
    lemma_mid_between(b.start.x as int, b.end.x as int);
    lemma_mid_between(b.start.y as int, b.end.y as int);
}

/// Every quadrant lies completely inside its rectangle.
pub proof fn lemma_quad_inside(b: Boundry, i: int)
    requires
        b.wf(),
        0 <= i < 4,
    ensures
        b.spec_quad(i).spec_completely_inside(b),
{
    lemma_mid_between(b.start.x as int, b.end.x as int);
    lemma_mid_between(b.start.y as int, b.end.y as int);
}

/// A point of a rectangle is contained in the quadrant it is assigned to.
pub proof fn lemma_index_quad_contains(b: Boundry, p: Point)
    requires
        b.wf(),
        b.spec_contains(p),
    ensures
        0 <= b.spec_index(p) < 4,
        b.spec_quad(b.spec_index(p)).spec_contains(p),
{
    lemma_mid_between(b.start.x as int, b.end.x as int);
    lemma_mid_between(b.start.y as int, b.end.y as int);
}

/// Containment carries over from an inner rectangle to one enclosing it.
pub proof fn lemma_inside_transfers(inner: Boundry, outer: Boundry, p: Point)
    requires
        inner.spec_completely_inside(outer),
        inner.spec_contains(p),
    ensures
        outer.spec_contains(p),
{
}

/// Rectangles that do not overlap share no point.
pub proof fn lemma_no_overlap_no_common_point(a: Boundry, b: Boundry, p: Point)
    requires
        !a.spec_overlaps(b),
        a.spec_contains(p),
    ensures
        !b.spec_contains(p),
{
}

/// While a rectangle can be split, each quadrant is strictly smaller.
pub proof fn lemma_quad_smaller(b: Boundry, i: int)
    requires
        b.wf(),
        b.spec_splittable(),
        0 <= i < 4,
    ensures
        0 <= b.spec_quad(i).size() < b.size(),
{
    lemma_mid_between(b.start.x as int, b.end.x as int);
    lemma_mid_between(b.start.y as int, b.end.y as int);
}

} // verus!
