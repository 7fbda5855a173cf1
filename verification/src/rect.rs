//! Axis-aligned rectangles and the overlap test.

use vstd::prelude::*;

verus! {

/// Largest magnitude allowed for a well-formed rectangle edge.
pub const COORD_LIMIT: i64 = 0x1000_0000;

/// An axis-aligned rectangle: origin `(x, y)` plus extents `(w, h)`.
/// The y axis grows downward, so the top edge is `y` and the bottom
/// edge is `y + h`.
#[derive(Debug, Clone, Copy, PartialEq, Eq, Structural)]
pub struct Rect {
    pub x: i64,
    pub y: i64,
    pub w: i64,
    pub h: i64,
}

/// The right edge of a rectangle.
pub open spec fn right_edge(r: Rect) -> int {
    r.x + r.w
}

/// The bottom edge of a rectangle (y grows downward).
pub open spec fn bot_edge(r: Rect) -> int {
    r.y + r.h
}

/// Both edge sums of `r` stay within `i64`, so the accessors and the
/// overlap test can be computed without overflow.
pub open spec fn rect_sums_fit(r: Rect) -> bool {
    &&& i64::MIN <= right_edge(r) <= i64::MAX
    &&& i64::MIN <= bot_edge(r) <= i64::MAX
}

/// A well-formed rectangle: strictly positive extents and all four
/// edges within `COORD_LIMIT` of the origin.
pub open spec fn rect_wf(r: Rect) -> bool {
    &&& 0 < r.w
    &&& 0 < r.h
    &&& -COORD_LIMIT <= r.x
    &&& right_edge(r) <= COORD_LIMIT
    &&& -COORD_LIMIT <= r.y
    &&& bot_edge(r) <= COORD_LIMIT
}

/// The closed rectangles `a` and `b` overlap with positive area on
/// both axes.
pub open spec fn rects_intersect(a: Rect, b: Rect) -> bool {
    &&& a.x < right_edge(b)
    &&& right_edge(a) > b.x
    &&& a.y < bot_edge(b)
    &&& bot_edge(a) > b.y
}

/// `r` displaced by `(dx, dy)`, extents unchanged.
pub open spec fn moved_rect(r: Rect, dx: int, dy: int) -> Rect {
    Rect { x: (r.x + dx) as i64, y: (r.y + dy) as i64, w: r.w, h: r.h }
}

impl Rect {
    pub fn new(x: i64, y: i64, w: i64, h: i64) -> (r: Rect)
        ensures
            r == (Rect { x, y, w, h }),
    {
        Rect { x, y, w, h }
    }

    pub fn left(&self) -> (r: i64)
        ensures
            r == self.x,
    {
        self.x
    }

    pub fn right(&self) -> (r: i64)
        requires
            i64::MIN <= right_edge(*self) <= i64::MAX,
        ensures
            r == right_edge(*self),
    {
        self.x + self.w
    }

    pub fn top(&self) -> (r: i64)
        ensures
            r == self.y,
    {
        self.y
    }

    pub fn bot(&self) -> (r: i64)
        requires
            i64::MIN <= bot_edge(*self) <= i64::MAX,
        ensures
            r == bot_edge(*self),
    {
        self.y + self.h
    }
}

/// Standard AABB overlap test over closed rectangles.
pub fn rect_intersection(a: Rect, b: Rect) -> (r: bool)
    requires
        rect_sums_fit(a),
        rect_sums_fit(b),
    ensures
        r == rects_intersect(a, b),
{
    a.left() < b.right() && a.right() > b.left() && a.top() < b.bot() && a.bot() > b.top()
}

} // verus!
