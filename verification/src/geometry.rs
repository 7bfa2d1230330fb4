//! Axis-aligned rectangle algebra: containment, the corner-based intersection
//! heuristic, quadrant splitting and centroid-relative quadrant classification.

use vstd::prelude::*;

verus! {

/// Bound on every coordinate the rectangle algebra accepts, far above anything
/// the arena produces; it only keeps the `i64` arithmetic free of overflow.
pub const GEOM_BOUND: i64 = 0x4000_0000;

/// The four quadrants of a rectangle.
#[derive(Clone, Copy, Debug, PartialEq, Eq, Structural)]
pub enum Cells {
    TopLeft,
    TopRight,
    BottomLeft,
    BottomRight,
}

/// A region of the quadtree, paired with a flag that marks crowded leaves;
/// consumed only by debug rendering.
#[derive(Clone, Copy, Debug, PartialEq, Eq, Structural)]
pub struct RenderingRect {
    pub rect: Rect,
    pub many: bool,
}

/// An axis-aligned region; `w` and `h` are kept non-negative.
#[derive(Clone, Copy, Debug, PartialEq, Eq, Structural)]
pub struct Rect {
    pub x: i64,
    pub y: i64,
    pub w: i64,
    pub h: i64,
}

/// A 2D coordinate, used both as a position and as a velocity vector.
#[derive(Clone, Copy, Debug, PartialEq, Eq, Structural)]
pub struct Point {
    pub x: i64,
    pub y: i64,
}

/// The point `(px, py)` lies in the closed rectangle `r`.
pub open spec fn rect_contains(r: Rect, px: int, py: int) -> bool {
    &&& r.x <= px
    &&& px <= r.x + r.w
    &&& r.y <= py
    &&& py <= r.y + r.h
}

/// The point `(px, py)` lies strictly inside the rectangle `r`.
pub open spec fn rect_strictly_contains(r: Rect, px: int, py: int) -> bool {
    &&& r.x < px
    &&& px < r.x + r.w
    &&& r.y < py
    &&& py < r.y + r.h
}

/// Some corner of `a` lies in the closed rectangle `b`: the cheap,
/// intentionally asymmetric intersection heuristic.
pub open spec fn rect_intersects(a: Rect, b: Rect) -> bool {
    ||| rect_contains(b, a.x as int, a.y as int)
    ||| rect_contains(b, a.x + a.w, a.y as int)
    ||| rect_contains(b, a.x as int, a.y + a.h)
    ||| rect_contains(b, a.x + a.w, a.y + a.h)
}

/// The symmetric closure of the corner heuristic: the operative
/// bounding-box overlap test for a pair of regions.
pub open spec fn rects_overlap(a: Rect, b: Rect) -> bool {
    rect_intersects(a, b) || rect_intersects(b, a)
}

/// Every corner of `a` lies strictly inside `b`: `a` fits entirely within
/// `b`, touching no edge.
pub open spec fn rect_fits(a: Rect, b: Rect) -> bool {
    &&& rect_strictly_contains(b, a.x as int, a.y as int)
    &&& rect_strictly_contains(b, a.x + a.w, a.y as int)
    &&& rect_strictly_contains(b, a.x as int, a.y + a.h)
    &&& rect_strictly_contains(b, a.x + a.w, a.y + a.h)
}

/// All edges of `r` are small enough for exact `i64` arithmetic; the bound
/// covers both the origin and the far corner, so it survives subdivision.
pub open spec fn rect_bounded(r: Rect) -> bool {
    &&& -GEOM_BOUND <= r.x
    &&& r.x + r.w <= GEOM_BOUND
    &&& -GEOM_BOUND <= r.y
    &&& r.y + r.h <= GEOM_BOUND
    &&& 0 <= r.w
    &&& 0 <= r.h
}

/// The top-left quadrant of `r` (both dimensions halved, rounding down).
pub open spec fn spec_top_left(r: Rect) -> Rect {
    Rect { x: r.x, y: r.y, w: (r.w / 2) as i64, h: (r.h / 2) as i64 }
}

/// The top-right quadrant of `r`.
pub open spec fn spec_top_right(r: Rect) -> Rect {
    Rect { x: (r.x + r.w / 2) as i64, y: r.y, w: (r.w / 2) as i64, h: (r.h / 2) as i64 }
}

/// The bottom-left quadrant of `r`.
pub open spec fn spec_bottom_left(r: Rect) -> Rect {
    Rect { x: r.x, y: (r.y + r.h / 2) as i64, w: (r.w / 2) as i64, h: (r.h / 2) as i64 }
}

/// The bottom-right quadrant of `r`.
pub open spec fn spec_bottom_right(r: Rect) -> Rect {
    Rect {
        x: (r.x + r.w / 2) as i64,
        y: (r.y + r.h / 2) as i64,
        w: (r.w / 2) as i64,
        h: (r.h / 2) as i64,
    }
}

/// The quadrant cell of `r` named by `c`.
pub open spec fn cell_of(r: Rect, c: Cells) -> Rect {
    match c {
        Cells::TopLeft => spec_top_left(r),
        Cells::TopRight => spec_top_right(r),
        Cells::BottomLeft => spec_bottom_left(r),
        Cells::BottomRight => spec_bottom_right(r),
    }
}

/// Which quadrant of `r` the point `p` falls in, relative to the center of
/// `r`; ties favor top and left.
pub open spec fn spec_quadrant(r: Rect, p: Point) -> Cells {
    if r.x + r.w / 2 < p.x {
        if r.y + r.h / 2 < p.y {
            Cells::BottomRight
        } else {
            Cells::TopRight
        }
    } else {
        if r.y + r.h / 2 < p.y {
            Cells::BottomLeft
        } else {
            Cells::TopLeft
        }
    }
}

/// `c` names a right-column quadrant.
pub open spec fn cell_is_right(c: Cells) -> bool {
    c == Cells::TopRight || c == Cells::BottomRight
}

/// `c` names a bottom-row quadrant.
pub open spec fn cell_is_bottom(c: Cells) -> bool {
    c == Cells::BottomLeft || c == Cells::BottomRight
}

/// The point `(px, py)` lies strictly inside `r`, executably.
fn strictly_contains_point(r: Rect, px: i64, py: i64) -> (res: bool)
    requires
        rect_bounded(r),
    ensures
        res == rect_strictly_contains(r, px as int, py as int),
{
    r.x < px && px < r.x + r.w && r.y < py && py < r.y + r.h
}

impl Rect {
    /// Whether some corner of `self` lies in the closed rectangle `other`
    /// (the asymmetric heuristic, not a full separating-axis test).
    pub fn intersects(&self, other: Rect) -> (res: bool)
        requires
            rect_bounded(*self),
            rect_bounded(other),
        ensures
            res == rect_intersects(*self, other),
    {
        let top_left = Point { x: self.x, y: self.y }.is_in_rect(&other);
        let top_right = Point { x: self.x + self.w, y: self.y }.is_in_rect(&other);
        let bottom_left = Point { x: self.x, y: self.y + self.h }.is_in_rect(&other);
        let bottom_right = Point { x: self.x + self.w, y: self.y + self.h }.is_in_rect(&other);

        if top_left || top_right || bottom_left || bottom_right {
            return true;
        }
        false
    }

    /// Whether `self` fits entirely inside `other`: every corner strictly
    /// within, so that nothing of `self` touches the boundary of `other`.
    pub fn fits(&self, other: Rect) -> (res: bool)
        requires
            rect_bounded(*self),
            rect_bounded(other),
        ensures
            res == rect_fits(*self, other),
    {
        let top_left = strictly_contains_point(other, self.x, self.y);
        let top_right = strictly_contains_point(other, self.x + self.w, self.y);
        let bottom_left = strictly_contains_point(other, self.x, self.y + self.h);
        let bottom_right = strictly_contains_point(other, self.x + self.w, self.y + self.h);

        if top_left && top_right && bottom_left && bottom_right {
            return true;
        }
        false
    }

    /// Halve both dimensions, producing the four non-overlapping child
    /// regions: top-left, top-right, bottom-left, bottom-right.
    pub fn split_to_four_cells(&self) -> (res: (Rect, Rect, Rect, Rect))
        requires
            rect_bounded(*self),
        ensures
            res.0 == spec_top_left(*self),
            res.1 == spec_top_right(*self),
            res.2 == spec_bottom_left(*self),
            res.3 == spec_bottom_right(*self),
    {
        let new_w = self.w / 2;
        let new_h = self.h / 2;

        let top_left = Rect { x: self.x, y: self.y, w: new_w, h: new_h };
        let top_right = Rect { x: self.x + new_w, y: self.y, w: new_w, h: new_h };
        let bottom_left = Rect { x: self.x, y: self.y + new_h, w: new_w, h: new_h };
        let bottom_right = Rect { x: self.x + new_w, y: self.y + new_h, w: new_w, h: new_h };

        (top_left, top_right, bottom_left, bottom_right)
    }

    /// The center of the rectangle, rounding down.
    pub fn center(&self) -> (res: Point)
        requires
            rect_bounded(*self),
        ensures
            res.x == self.x + self.w / 2,
            res.y == self.y + self.h / 2,
    {
        Point { x: self.x + self.w / 2, y: self.y + self.h / 2 }
    }

    /// Classify `point` into one of the four quadrants of `self`, relative
    /// to the center; ties favor top and left.
    pub fn where_is_point_relative_to_center(self, point: Point) -> (res: Cells)
        requires
            rect_bounded(self),
        ensures
            res == spec_quadrant(self, point),
    {
        let center = self.center();

        if center.x < point.x {
            if center.y < point.y {
                Cells::BottomRight
            } else {
                Cells::TopRight
            }
        } else if center.y < point.y {
            Cells::BottomLeft
        } else {
            Cells::TopLeft
        }
    }

    /// The top-left quadrant of `self`.
    pub fn top_left(&self) -> (res: Rect)
        requires
            rect_bounded(*self),
        ensures
            res == spec_top_left(*self),
    {
        let new_w = self.w / 2;
        let new_h = self.h / 2;
        Rect { x: self.x, y: self.y, w: new_w, h: new_h }
    }

    /// The top-right quadrant of `self`.
    pub fn top_right(&self) -> (res: Rect)
        requires
            rect_bounded(*self),
        ensures
            res == spec_top_right(*self),
    {
        let new_w = self.w / 2;
        let new_h = self.h / 2;
        Rect { x: self.x + new_w, y: self.y, w: new_w, h: new_h }
    }

    /// The bottom-left quadrant of `self`.
    pub fn bottom_left(&self) -> (res: Rect)
        requires
            rect_bounded(*self),
        ensures
            res == spec_bottom_left(*self),
    {
        let new_w = self.w / 2;
        let new_h = self.h / 2;
        Rect { x: self.x, y: self.y + new_h, w: new_w, h: new_h }
    }

    /// The bottom-right quadrant of `self`.
    pub fn bottom_right(&self) -> (res: Rect)
        requires
            rect_bounded(*self),
        ensures
            res == spec_bottom_right(*self),
    {
        let new_w = self.w / 2;
        let new_h = self.h / 2;
        Rect { x: self.x + new_w, y: self.y + new_h, w: new_w, h: new_h }
    }
}

impl Point {
    /// The position of a randomly spawned ball: the host draws a point
    /// within the inner 80% of the arena on each axis and hands it in.
    pub fn random_point(width: i64, height: i64, pos_x: i64, pos_y: i64) -> (res: Point)
        requires
            0 <= width,
            0 <= height,
            width / 10 <= pos_x <= width * 9 / 10,
            height / 10 <= pos_y <= height * 9 / 10,
        ensures
            res == (Point { x: pos_x, y: pos_y }),
    {
        Point { x: pos_x, y: pos_y }
    }

    /// The velocity of a randomly spawned ball: the host draws a magnitude
    /// per axis within the given band and a sign for each.
    pub fn random_velocity(
        min: i64,
        max: i64,
        speed_x: i64,
        speed_y: i64,
        neg_x: bool,
        neg_y: bool,
    ) -> (res: Point)
        requires
            -0x100_0000 <= min <= max <= 0x100_0000,
            min <= speed_x <= max,
            min <= speed_y <= max,
        ensures
            res == (Point {
                x: if neg_x {
                    (-speed_x) as i64
                } else {
                    speed_x
                },
                y: if neg_y {
                    (-speed_y) as i64
                } else {
                    speed_y
                },
            }),
    {
        Point {
            x: if neg_x {
                -speed_x
            } else {
                speed_x
            },
            y: if neg_y {
                -speed_y
            } else {
                speed_y
            },
        }
    }

    /// Whether the point lies in the closed rectangle `rect`.
    pub fn is_in_rect(&self, rect: &Rect) -> (res: bool)
        requires
            rect_bounded(*rect),
        ensures
            res == rect_contains(*rect, self.x as int, self.y as int),
    {
        crate::ball::is_point_in_rect(rect.x, rect.y, rect.w, rect.h, self.x, self.y)
    }
}

/// Two rectangles that fit entirely inside different quadrant cells of the
/// same region cannot overlap, not even by the corner heuristic: the strict
/// fit keeps each of them inside the open interior of its cell, and the open
/// interiors of distinct cells are disjoint.
pub proof fn lemma_separate_cells_no_overlap(r: Rect, qa: Cells, qb: Cells, a: Rect, b: Rect)
    requires
        rect_bounded(r),
        qa != qb,
        rect_fits(a, cell_of(r, qa)),
        rect_fits(b, cell_of(r, qb)),
    ensures
        !rects_overlap(a, b),
{
    let w2 = r.w / 2;
    let h2 = r.h / 2;
    if cell_is_right(qa) != cell_is_right(qb) {
        if cell_is_right(qa) {
            assert(b.x + b.w < r.x + w2) by {};
            assert(r.x + w2 < a.x) by {};
        } else {
            assert(a.x + a.w < r.x + w2) by {};
            assert(r.x + w2 < b.x) by {};
        }
    } else {
        assert(cell_is_bottom(qa) != cell_is_bottom(qb));
        if cell_is_bottom(qa) {
            assert(b.y + b.h < r.y + h2) by {};
            assert(r.y + h2 < a.y) by {};
        } else {
            assert(a.y + a.h < r.y + h2) by {};
            assert(r.y + h2 < b.y) by {};
        }
    }
}

} // verus!
