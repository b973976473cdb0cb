//! The four directions a rail runs in, and Factorio's quarter directions.

use vstd::prelude::*;
use crate::surface::vpoint::{VPoint, fits_i32};

verus! {

/// Direction a rail runs in. `Up` moves toward larger `y`.
#[derive(Clone, Copy, PartialEq, Eq, Structural, Debug, Hash)]
pub enum RailDirection {
    Up,
    Down,
    Left,
    Right,
}

/// Index of a direction in clockwise order starting at `Up`.
pub open spec fn rail_direction_index(d: RailDirection) -> int {
    match d {
        RailDirection::Up => 0,
        RailDirection::Right => 1,
        RailDirection::Down => 2,
        RailDirection::Left => 3,
    }
}

/// Direction with the given clockwise index, taken modulo 4.
pub open spec fn rail_direction_from_index(i: int) -> RailDirection {
    let m = i % 4;
    if m == 0 {
        RailDirection::Up
    } else if m == 1 {
        RailDirection::Right
    } else if m == 2 {
        RailDirection::Down
    } else {
        RailDirection::Left
    }
}

/// The direction after `rotations` clockwise quarter turns.
pub open spec fn rail_spin(d: RailDirection, rotations: int) -> RailDirection {
    rail_direction_from_index(rail_direction_index(d) + rotations)
}

/// Unit step on the x axis for a direction.
pub open spec fn rail_dx(d: RailDirection) -> int {
    match d {
        RailDirection::Left => -1,
        RailDirection::Right => 1,
        _ => 0,
    }
}

/// Unit step on the y axis for a direction.
pub open spec fn rail_dy(d: RailDirection) -> int {
    match d {
        RailDirection::Up => 1,
        RailDirection::Down => -1,
        _ => 0,
    }
}

impl RailDirection {
    /// Rotate clockwise by `rotations` quarter turns.
    pub fn spinner(&self, rotations: usize) -> (r: RailDirection)
        ensures
            r == rail_spin(*self, rotations as int),
    {
        let start: usize = match self {
            RailDirection::Up => 0,
            RailDirection::Right => 1,
            RailDirection::Down => 2,
            RailDirection::Left => 3,
        };
        let m = (start % 4 + rotations % 4) % 4;
        proof {
            assert(m == (start + rotations) % 4) by (nonlinear_arith)
                requires
                    m == (start % 4 + rotations % 4) % 4,
            ;
        }
        if m == 0 {
            RailDirection::Up
        } else if m == 1 {
            RailDirection::Right
        } else if m == 2 {
            RailDirection::Down
        } else {
            RailDirection::Left
        }
    }

    /// Whether both directions lie on the same axis.
    pub fn is_same_axis(&self, other: &RailDirection) -> (r: bool)
        ensures
            r == (rail_direction_index(*self) % 2 == rail_direction_index(*other) % 2),
    {
        match (self, other) {
            (RailDirection::Up, RailDirection::Up)
            | (RailDirection::Up, RailDirection::Down)
            | (RailDirection::Down, RailDirection::Up)
            | (RailDirection::Down, RailDirection::Down)
            | (RailDirection::Left, RailDirection::Left)
            | (RailDirection::Left, RailDirection::Right)
            | (RailDirection::Right, RailDirection::Left)
            | (RailDirection::Right, RailDirection::Right) => true,
            _ => false,
        }
    }

    /// The name `strum` gives the variant.
    pub fn as_ref(&self) -> (r: &'static str)
        ensures
            r@ == rail_direction_name(*self),
    {
        proof {
            reveal_strlit("Up");
            reveal_strlit("Down");
            reveal_strlit("Left");
            reveal_strlit("Right");
        }
        match self {
            RailDirection::Up => "Up",
            RailDirection::Down => "Down",
            RailDirection::Left => "Left",
            RailDirection::Right => "Right",
        }
    }
}

/// Variant name of a rail direction.
pub open spec fn rail_direction_name(d: RailDirection) -> Seq<char> {
    match d {
        RailDirection::Up => seq!['U', 'p'],
        RailDirection::Down => seq!['D', 'o', 'w', 'n'],
        RailDirection::Left => seq!['L', 'e', 'f', 't'],
        RailDirection::Right => seq!['R', 'i', 'g', 'h', 't'],
    }
}

/// Factorio's four main directions. North is toward smaller `y`.
#[derive(Clone, Copy, PartialEq, Eq, Structural, Debug, Hash)]
pub enum FacDirectionQuarter {
    North,
    East,
    South,
    West,
}

/// Unit step on the x axis for a quarter direction.
pub open spec fn quarter_dx(d: FacDirectionQuarter) -> int {
    match d {
        FacDirectionQuarter::East => 1,
        FacDirectionQuarter::West => -1,
        _ => 0,
    }
}

/// Unit step on the y axis for a quarter direction.
pub open spec fn quarter_dy(d: FacDirectionQuarter) -> int {
    match d {
        FacDirectionQuarter::North => -1,
        FacDirectionQuarter::South => 1,
        _ => 0,
    }
}

/// The direction a quarter turn clockwise: the sideways of a direction.
pub open spec fn quarter_clockwise(d: FacDirectionQuarter) -> FacDirectionQuarter {
    match d {
        FacDirectionQuarter::North => FacDirectionQuarter::East,
        FacDirectionQuarter::East => FacDirectionQuarter::South,
        FacDirectionQuarter::South => FacDirectionQuarter::West,
        FacDirectionQuarter::West => FacDirectionQuarter::North,
    }
}

/// The opposite direction.
pub open spec fn quarter_flip(d: FacDirectionQuarter) -> FacDirectionQuarter {
    quarter_clockwise(quarter_clockwise(d))
}

/// The point `steps` forward in direction `d`, and `side` to its clockwise side.
pub open spec fn quarter_moved(p: VPoint, d: FacDirectionQuarter, steps: int, side: int) -> (int, int) {
    let s = quarter_clockwise(d);
    (
        p.x + quarter_dx(d) * steps + quarter_dx(s) * side,
        p.y + quarter_dy(d) * steps + quarter_dy(s) * side,
    )
}

impl FacDirectionQuarter {
    /// The opposite direction.
    pub fn rotate_flip(&self) -> (r: FacDirectionQuarter)
        ensures
            r == quarter_flip(*self),
    {
        match self {
            FacDirectionQuarter::North => FacDirectionQuarter::South,
            FacDirectionQuarter::East => FacDirectionQuarter::West,
            FacDirectionQuarter::South => FacDirectionQuarter::North,
            FacDirectionQuarter::West => FacDirectionQuarter::East,
        }
    }

    /// A quarter turn clockwise.
    pub fn rotate_clockwise(&self) -> (r: FacDirectionQuarter)
        ensures
            r == quarter_clockwise(*self),
    {
        match self {
            FacDirectionQuarter::North => FacDirectionQuarter::East,
            FacDirectionQuarter::East => FacDirectionQuarter::South,
            FacDirectionQuarter::South => FacDirectionQuarter::West,
            FacDirectionQuarter::West => FacDirectionQuarter::North,
        }
    }
}

/// Move a point `steps` in direction `d`.
pub fn move_direction_int(p: VPoint, d: FacDirectionQuarter, steps: i32) -> (r: VPoint)
    requires
        fits_i32(quarter_moved(p, d, steps as int, 0).0),
        fits_i32(quarter_moved(p, d, steps as int, 0).1),
    ensures
        r.x == quarter_moved(p, d, steps as int, 0).0,
        r.y == quarter_moved(p, d, steps as int, 0).1,
{
    match d {
        FacDirectionQuarter::North => VPoint { x: p.x, y: p.y - steps },
        FacDirectionQuarter::East => VPoint { x: p.x + steps, y: p.y },
        FacDirectionQuarter::South => VPoint { x: p.x, y: p.y + steps },
        FacDirectionQuarter::West => VPoint { x: p.x - steps, y: p.y },
    }
}

/// Move a point `steps` to the clockwise side of direction `d`.
pub fn move_direction_sideways_int(p: VPoint, d: FacDirectionQuarter, steps: i32) -> (r: VPoint)
    requires
        fits_i32(quarter_moved(p, d, 0, steps as int).0),
        fits_i32(quarter_moved(p, d, 0, steps as int).1),
    ensures
        r.x == quarter_moved(p, d, 0, steps as int).0,
        r.y == quarter_moved(p, d, 0, steps as int).1,
{
    match d {
        FacDirectionQuarter::North => VPoint { x: p.x + steps, y: p.y },
        FacDirectionQuarter::East => VPoint { x: p.x, y: p.y + steps },
        FacDirectionQuarter::South => VPoint { x: p.x - steps, y: p.y },
        FacDirectionQuarter::West => VPoint { x: p.x, y: p.y - steps },
    }
}

} // verus!
