//! Image buffers shared with the image library.

use vstd::prelude::*;
use crate::surface::vpoint::VPoint;

verus! {

/// An owned image buffer, `rows` by `cols` bytes, row by row.
pub struct GeneratedMat {
    pub rows: usize,
    pub cols: usize,
    pub data: Vec<u8>,
}


/// The point of cell `i` of a buffer `cols` wide, moved back by `offset`.
pub open spec fn cell_point(i: int, cols: int, offset: VPoint) -> VPoint {
    VPoint { x: (i % cols - offset.x) as i32, y: (i / cols - offset.y) as i32 }
}

/// The points of the first `n` cells that hold `needle`, in row-major order,
/// each moved back by `offset`.
pub open spec fn needle_points(data: Seq<u8>, cols: int, needle: u8, offset: VPoint, n: int) -> Seq<VPoint>
    decreases n,
{
    if n <= 0 {
        Seq::empty()
    } else {
        let prev = needle_points(data, cols, needle, offset, n - 1);
        if data[n - 1] == needle { prev.push(cell_point(n - 1, cols, offset)) } else { prev }
    }
}

/// Most rows or columns, and largest offset, that keep every point in `i32`.
pub const MAT_SIDE_LIMIT: usize = 1073741824;

/// The points of every cell that holds `needle`, row by row, as column and
/// row moved back by `offset`.
pub fn mat_into_points(mat: &GeneratedMat, needle: u8, offset: VPoint) -> (r: Vec<VPoint>)
    requires
        mat.data@.len() == mat.rows * mat.cols,
        mat.rows <= MAT_SIDE_LIMIT,
        mat.cols <= MAT_SIDE_LIMIT,
        -1073741824 <= offset.x <= 1073741824,
        -1073741824 <= offset.y <= 1073741824,
    ensures
        r@ == needle_points(mat.data@, mat.cols as int, needle, offset, mat.data@.len() as int),
{
    let mut points: Vec<VPoint> = Vec::new();
    if mat.cols == 0 {
        proof {
            assert(mat.data@.len() == 0) by (nonlinear_arith)
                requires mat.data@.len() == mat.rows * mat.cols, mat.cols == 0;
        }
        return points;
    }
    let cols = mat.cols;
    let mut i: usize = 0;
    let mut row: usize = 0;
    let mut col: usize = 0;
    while i < mat.data.len()
        invariant
            mat.data@.len() == mat.rows * mat.cols,
            cols == mat.cols,
            0 < cols <= MAT_SIDE_LIMIT,
            mat.rows <= MAT_SIDE_LIMIT,
            -1073741824 <= offset.x <= 1073741824,
            -1073741824 <= offset.y <= 1073741824,
            i <= mat.data@.len(),
            col < cols,
            i == row * cols + col,
            i < mat.data@.len() ==> row < mat.rows,
            points@ == needle_points(mat.data@, cols as int, needle, offset, i as int),
        decreases mat.data@.len() - i,
    {
        proof {
            vstd::arithmetic::div_mod::lemma_fundamental_div_mod_converse(i as int, cols as int, row as int, col as int);
        }
        if mat.data[i] == needle {
            let x: i32 = (col as i64 - offset.x as i64) as i32;
            let y: i32 = (row as i64 - offset.y as i64) as i32;
            points.push(VPoint { x, y });
        }
        i = i + 1;
        if col + 1 == cols {
            proof {
                assert(i == (row + 1) * cols) by (nonlinear_arith)
                    requires i == row * cols + col + 1, col + 1 == cols;
                if i < mat.data@.len() {
                    assert(row + 1 < mat.rows) by (nonlinear_arith)
                        requires i == (row + 1) * cols, i < mat.rows * cols, cols > 0;
                }
            }
            row = row + 1;
            col = 0;
        } else {
            col = col + 1;
        }
    }
    points
}

} // verus!
