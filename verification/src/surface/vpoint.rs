//! Integer tile positions and the half-tile positions Factorio places entities at.

use vstd::prelude::*;

verus! {

/// Core XY point of a tile. Entity origin is top left, not Factorio's center.
#[derive(Clone, Copy, PartialEq, Eq, Structural, Debug, Hash)]
pub struct VPoint {
    pub x: i32,
    pub y: i32,
}

/// Whether a value fits in `i32`.
pub open spec fn fits_i32(v: int) -> bool {
    i32::MIN <= v <= i32::MAX
}

/// The point at integer coordinates, cast into the `i32` range.
pub open spec fn vpoint_at(x: int, y: int) -> VPoint {
    VPoint { x: x as i32, y: y as i32 }
}

/// Manhattan distance between two points.
pub open spec fn manhattan(a: VPoint, b: VPoint) -> int {
    let dx = a.x - b.x;
    let dy = a.y - b.y;
    (if dx < 0 { -dx } else { dx }) + (if dy < 0 { -dy } else { dy })
}

/// Whether both coordinates are odd.
pub open spec fn is_odd_position(p: VPoint) -> bool {
    p.x % 2 == 1 && p.y % 2 == 1
}

/// Whether both coordinates are even.
pub open spec fn is_even_position(p: VPoint) -> bool {
    p.x % 2 == 0 && p.y % 2 == 0
}

impl VPoint {
    pub fn new(x: i32, y: i32) -> (r: Self)
        ensures
            r.x == x,
            r.y == y,
    {
        VPoint { x, y }
    }

    pub fn zero() -> (r: Self)
        ensures
            r.x == 0,
            r.y == 0,
    {
        VPoint { x: 0, y: 0 }
    }

    pub fn x(&self) -> (r: i32)
        ensures
            r == self.x,
    {
        self.x
    }

    pub fn y(&self) -> (r: i32)
        ensures
            r == self.y,
    {
        self.y
    }

    pub fn move_x(&self, steps: i32) -> (r: Self)
        requires
            fits_i32(self.x + steps),
        ensures
            r.x == self.x + steps,
            r.y == self.y,
    {
        VPoint { x: self.x + steps, y: self.y }
    }

    pub fn move_y(&self, steps: i32) -> (r: Self)
        requires
            fits_i32(self.y + steps),
        ensures
            r.x == self.x,
            r.y == self.y + steps,
    {
        VPoint { x: self.x, y: self.y + steps }
    }

    pub fn move_xy(&self, x_steps: i32, y_steps: i32) -> (r: Self)
        requires
            fits_i32(self.x + x_steps),
            fits_i32(self.y + y_steps),
        ensures
            r.x == self.x + x_steps,
            r.y == self.y + y_steps,
    {
        VPoint { x: self.x + x_steps, y: self.y + y_steps }
    }

    /// X distance from `other` to this point.
    pub fn subtract_x(&self, other: &VPoint) -> (r: i32)
        requires
            fits_i32(self.x - other.x),
        ensures
            r == self.x - other.x,
    {
        self.x - other.x
    }

    /// Y distance from `other` to this point.
    pub fn subtract_y(&self, other: &VPoint) -> (r: i32)
        requires
            fits_i32(self.y - other.y),
        ensures
            r == self.y - other.y,
    {
        self.y - other.y
    }

    /// Manhattan distance.
    pub fn distance_to(&self, other: &VPoint) -> (r: u32)
        requires
            manhattan(*self, *other) <= u32::MAX,
        ensures
            r == manhattan(*self, *other),
    {
        let dx: i64 = self.x as i64 - other.x as i64;
        let dy: i64 = self.y as i64 - other.y as i64;
        let ax: i64 = if dx < 0 { -dx } else { dx };
        let ay: i64 = if dy < 0 { -dy } else { dy };
        (ax + ay) as u32
    }

    /// Both coordinates odd, as every rail endpoint must be.
    pub fn is_odd_position(&self) -> (r: bool)
        ensures
            r == is_odd_position(*self),
    {
        self.x % 2 != 0 && self.y % 2 != 0
    }

    /// Position of this tile's top left corner, in half tiles.
    pub fn to_f32(&self) -> (r: HalfPoint)
        ensures
            r.x2 == 2 * self.x,
            r.y2 == 2 * self.y,
    {
        HalfPoint { x2: 2 * (self.x as i64), y2: 2 * (self.y as i64) }
    }

    /// Position of this tile moved by an offset given in half tiles
    /// (an offset of `0.5` is `1`, `1.5` is `3`).
    pub fn to_f32_with_offset(&self, offset_halves: i32) -> (r: HalfPoint)
        ensures
            r.x2 == 2 * self.x + offset_halves,
            r.y2 == 2 * self.y + offset_halves,
    {
        HalfPoint {
            x2: 2 * (self.x as i64) + offset_halves as i64,
            y2: 2 * (self.y as i64) + offset_halves as i64,
        }
    }
}

/// A map position that Factorio takes as a float, always a multiple of half a
/// tile. Held in half tiles: the position is `(x2 / 2, y2 / 2)`.
#[derive(Clone, Copy, PartialEq, Eq, Structural, Debug, Hash)]
pub struct HalfPoint {
    pub x2: i64,
    pub y2: i64,
}

impl HalfPoint {
    /// A whole-tile position.
    pub fn new_whole(x: i32, y: i32) -> (r: Self)
        ensures
            r.x2 == 2 * x,
            r.y2 == 2 * y,
    {
        HalfPoint { x2: 2 * (x as i64), y2: 2 * (y as i64) }
    }

    /// The position from half-tile coordinates.
    pub fn new_halves(x2: i64, y2: i64) -> (r: Self)
        ensures
            r.x2 == x2,
            r.y2 == y2,
    {
        HalfPoint { x2, y2 }
    }

    /// Whether both coordinates are at the middle of a tile (`n.5`).
    pub fn is_half_number(&self) -> (r: bool)
        ensures
            r == (self.x2 % 2 != 0 && self.y2 % 2 != 0),
    {
        self.x2 % 2 != 0 && self.y2 % 2 != 0
    }
}

} // verus!
