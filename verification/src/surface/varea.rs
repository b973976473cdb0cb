//! Axis aligned rectangles of tiles, both corners included.

use vstd::prelude::*;
use crate::surface::vpoint::VPoint;

verus! {

/// Rectangle from `start` (top left) to `end` (bottom right), both included.
#[derive(Clone, Copy, PartialEq, Eq, Structural, Debug, Hash)]
pub struct VArea {
    pub start: VPoint,
    pub end: VPoint,
}

/// Whether a point lies in the rectangle.
pub open spec fn area_contains(a: VArea, p: VPoint) -> bool {
    a.start.x <= p.x <= a.end.x && a.start.y <= p.y <= a.end.y
}

/// Whether the corners are ordered.
pub open spec fn area_wf(a: VArea) -> bool {
    a.start.x <= a.end.x && a.start.y <= a.end.y
}

/// Smaller of two integers.
pub open spec fn min_int(a: int, b: int) -> int {
    if a <= b { a } else { b }
}

/// Larger of two integers.
pub open spec fn max_int(a: int, b: int) -> int {
    if a >= b { a } else { b }
}

fn min_i32(a: i32, b: i32) -> (r: i32)
    ensures
        r == min_int(a as int, b as int),
{
    if a <= b { a } else { b }
}

fn max_i32(a: i32, b: i32) -> (r: i32)
    ensures
        r == max_int(a as int, b as int),
{
    if a >= b { a } else { b }
}

impl VArea {
    /// The rectangle spanned by two opposite corners, in any order.
    pub fn from_arbitrary_points_pair(a: VPoint, b: VPoint) -> (r: Self)
        ensures
            r.start.x == min_int(a.x as int, b.x as int),
            r.start.y == min_int(a.y as int, b.y as int),
            r.end.x == max_int(a.x as int, b.x as int),
            r.end.y == max_int(a.y as int, b.y as int),
            area_wf(r),
    {
        VArea {
            start: VPoint { x: min_i32(a.x, b.x), y: min_i32(a.y, b.y) },
            end: VPoint { x: max_i32(a.x, b.x), y: max_i32(a.y, b.y) },
        }
    }

    /// The smallest rectangle holding every point. There is none of no
    /// points, so it asks for at least one.
    pub fn from_arbitrary_points(points: &[VPoint]) -> (r: Self)
        requires
            points@.len() > 0,
        ensures
            area_wf(r),
            forall|i: int| 0 <= i < points@.len() ==> area_contains(r, #[trigger] points@[i]),
            exists|i: int| 0 <= i < points@.len() && #[trigger] points@[i].x == r.start.x,
            exists|i: int| 0 <= i < points@.len() && #[trigger] points@[i].y == r.start.y,
            exists|i: int| 0 <= i < points@.len() && #[trigger] points@[i].x == r.end.x,
            exists|i: int| 0 <= i < points@.len() && #[trigger] points@[i].y == r.end.y,
    {
        let mut area = VArea { start: points[0], end: points[0] };
        let mut i: usize = 1;
        let ghost mut ix0: int = 0;
        let ghost mut iy0: int = 0;
        let ghost mut ix1: int = 0;
        let ghost mut iy1: int = 0;
        while i < points.len()
            invariant
                1 <= i <= points@.len(),
                area_wf(area),
                forall|j: int| 0 <= j < i ==> area_contains(area, #[trigger] points@[j]),
                0 <= ix0 < i && points@[ix0].x == area.start.x,
                0 <= iy0 < i && points@[iy0].y == area.start.y,
                0 <= ix1 < i && points@[ix1].x == area.end.x,
                0 <= iy1 < i && points@[iy1].y == area.end.y,
            decreases points@.len() - i,
        {
            let p = points[i];
            if p.x < area.start.x {
                area.start.x = p.x;
                proof { ix0 = i as int; }
            }
            if p.y < area.start.y {
                area.start.y = p.y;
                proof { iy0 = i as int; }
            }
            if p.x > area.end.x {
                area.end.x = p.x;
                proof { ix1 = i as int; }
            }
            if p.y > area.end.y {
                area.end.y = p.y;
                proof { iy1 = i as int; }
            }
            i = i + 1;
        }
        area
    }

    pub fn contains_point(&self, p: &VPoint) -> (r: bool)
        ensures
            r == area_contains(*self, *p),
    {
        self.start.x <= p.x && p.x <= self.end.x && self.start.y <= p.y && p.y <= self.end.y
    }

    pub fn point_top_left(&self) -> (r: VPoint)
        ensures
            r == self.start,
    {
        self.start
    }

    pub fn point_bottom_right(&self) -> (r: VPoint)
        ensures
            r == self.end,
    {
        self.end
    }

    /// The middle tile, rounded toward the top left.
    pub fn point_center(&self) -> (r: VPoint)
        requires
            area_wf(*self),
        ensures
            r.x == self.start.x + (self.end.x - self.start.x) / 2,
            r.y == self.start.y + (self.end.y - self.start.y) / 2,
            area_contains(*self, r),
    {
        let w: i64 = self.end.x as i64 - self.start.x as i64;
        let h: i64 = self.end.y as i64 - self.start.y as i64;
        VPoint { x: (self.start.x as i64 + w / 2) as i32, y: (self.start.y as i64 + h / 2) as i32 }
    }

    /// Top left, top right, bottom left and bottom right corners.
    pub fn get_corner_points(&self) -> (r: [VPoint; 4])
        ensures
            r@ == seq![
                self.start,
                VPoint { x: self.end.x, y: self.start.y },
                VPoint { x: self.start.x, y: self.end.y },
                self.end,
            ],
    {
        [
            self.start,
            VPoint { x: self.end.x, y: self.start.y },
            VPoint { x: self.start.x, y: self.end.y },
            self.end,
        ]
    }

    /// Whether every point lies in the rectangle.
    pub fn contains_points_all(&self, points: &[VPoint]) -> (r: bool)
        ensures
            r == forall|i: int| 0 <= i < points@.len() ==> area_contains(*self, #[trigger] points@[i]),
    {
        let mut i: usize = 0;
        while i < points.len()
            invariant
                i <= points@.len(),
                forall|j: int| 0 <= j < i ==> area_contains(*self, #[trigger] points@[j]),
            decreases points@.len() - i,
        {
            if !self.contains_point(&points[i]) {
                return false;
            }
            i = i + 1;
        }
        true
    }
}

} // verus!
