//! Filled circles of tiles around a point, read from a circle that the image
//! library drew into a square buffer.

use vstd::prelude::*;
use crate::opencv::{GeneratedMat, mat_into_points, needle_points, cell_point};
use crate::surface::vpoint::VPoint;

verus! {

/// The value the circle is drawn with.
pub const CIRCLE_FLAG: u8 = 255;

/// Largest radius, and largest coordinate of a center, that keep every
/// point of the circle in `i32`.
pub const CIRCLE_LIMIT: u32 = 268435456;

/// The circle's points relative to its center: the flagged cells of the
/// square buffer, each moved back by the radius.
pub open spec fn circle_offsets(raster: GeneratedMat, radius: u32) -> Seq<VPoint> {
    needle_points(raster.data@, raster.cols as int, CIRCLE_FLAG, VPoint { x: radius as i32, y: radius as i32 },
        raster.data@.len() as int)
}

/// The points of the filled circle of `radius` around `point`: `raster` is
/// the square buffer, `2 * radius + 1` cells wide, that the image library
/// filled the circle into with `CIRCLE_FLAG`, centered on its middle cell.
/// The points come row by row, each the cell moved by `point` minus the
/// radius.
pub fn draw_circle_around(raster: &GeneratedMat, radius: u32, point: &VPoint) -> (r: Vec<VPoint>)
    requires
        radius <= CIRCLE_LIMIT,
        raster.rows == 2 * radius + 1,
        raster.cols == 2 * radius + 1,
        raster.data@.len() == raster.rows * raster.cols,
        -CIRCLE_LIMIT <= point.x <= CIRCLE_LIMIT,
        -CIRCLE_LIMIT <= point.y <= CIRCLE_LIMIT,
    ensures
        r@.len() == circle_offsets(*raster, radius).len(),
        forall|i: int| 0 <= i < r@.len() ==> (#[trigger] r@[i]).x == circle_offsets(*raster, radius)[i].x + point.x
            && r@[i].y == circle_offsets(*raster, radius)[i].y + point.y,
{
    let center = VPoint { x: radius as i32, y: radius as i32 };
    let circle = mat_into_points(raster, CIRCLE_FLAG, center);
    let ghost offsets = circle@;
    proof {
        assert(offsets == circle_offsets(*raster, radius));
        lemma_offsets_small(*raster, radius);
    }
    let mut res: Vec<VPoint> = Vec::new();
    let mut i: usize = 0;
    while i < circle.len()
        invariant
            i <= circle@.len(),
            offsets == circle@,
            -CIRCLE_LIMIT <= point.x <= CIRCLE_LIMIT,
            -CIRCLE_LIMIT <= point.y <= CIRCLE_LIMIT,
            forall|k: int| 0 <= k < offsets.len() ==> -CIRCLE_LIMIT <= (#[trigger] offsets[k]).x <= CIRCLE_LIMIT
                && -CIRCLE_LIMIT <= offsets[k].y <= CIRCLE_LIMIT,
            res@.len() == i,
            forall|k: int| 0 <= k < i ==> (#[trigger] res@[k]).x == offsets[k].x + point.x && res@[k].y == offsets[k].y + point.y,
        decreases circle@.len() - i,
    {
        let c = circle[i];
        proof {
            assert(-CIRCLE_LIMIT <= offsets[i as int].x <= CIRCLE_LIMIT);
        }
        res.push(VPoint { x: c.x + point.x, y: c.y + point.y });
        i = i + 1;
    }
    res
}

/// Every cell of a square buffer `2 * radius + 1` wide, moved back by the
/// radius, lies within the radius of the center.
proof fn lemma_offsets_small(raster: GeneratedMat, radius: u32)
    requires
        radius <= CIRCLE_LIMIT,
        raster.cols == 2 * radius + 1,
        raster.data@.len() == raster.rows * raster.cols,
        raster.rows == 2 * radius + 1,
    ensures
        forall|k: int| 0 <= k < circle_offsets(raster, radius).len() ==> -CIRCLE_LIMIT <= (#[trigger] circle_offsets(raster, radius)[k]).x <= CIRCLE_LIMIT
            && -CIRCLE_LIMIT <= circle_offsets(raster, radius)[k].y <= CIRCLE_LIMIT,
{
    lemma_needle_points_within(raster.data@, raster.cols as int, raster.rows as int, radius as int, raster.data@.len() as int);
}

proof fn lemma_needle_points_within(data: Seq<u8>, cols: int, rows: int, radius: int, n: int)
    requires
        0 <= radius <= CIRCLE_LIMIT,
        cols == 2 * radius + 1,
        rows == 2 * radius + 1,
        data.len() == rows * cols,
        n <= data.len(),
    ensures
        forall|k: int| 0 <= k < needle_points(data, cols, CIRCLE_FLAG, VPoint { x: radius as i32, y: radius as i32 }, n).len()
            ==> -CIRCLE_LIMIT <= (#[trigger] needle_points(data, cols, CIRCLE_FLAG, VPoint { x: radius as i32, y: radius as i32 }, n)[k]).x <= CIRCLE_LIMIT
            && -CIRCLE_LIMIT <= needle_points(data, cols, CIRCLE_FLAG, VPoint { x: radius as i32, y: radius as i32 }, n)[k].y <= CIRCLE_LIMIT,
    decreases n,
{
    if n > 0 {
        lemma_needle_points_within(data, cols, rows, radius, n - 1);
        let i = n - 1;
        assert(0 <= i % cols < cols) by (nonlinear_arith) requires cols > 0;
        assert(0 <= i / cols < rows) by (nonlinear_arith)
            requires cols > 0, 0 <= i < rows * cols;
        let off = VPoint { x: radius as i32, y: radius as i32 };
        assert(off.x == radius && off.y == radius);
        let p = cell_point(i, cols, off);
        assert(-CIRCLE_LIMIT <= p.x <= CIRCLE_LIMIT && -CIRCLE_LIMIT <= p.y <= CIRCLE_LIMIT);
        let prev = needle_points(data, cols, CIRCLE_FLAG, off, n - 1);
        let now = needle_points(data, cols, CIRCLE_FLAG, off, n);
        assert forall|k: int| 0 <= k < now.len() implies -CIRCLE_LIMIT <= (#[trigger] now[k]).x <= CIRCLE_LIMIT
            && -CIRCLE_LIMIT <= now[k].y <= CIRCLE_LIMIT by {
            if k < prev.len() {
                assert(now[k] == prev[k]);
            } else {
                assert(now[k] == p);
            }
        }
    }
}

} // verus!
