//! Rails on a grid of 16 half-steps: straight sections, 90 degree turns, and
//! the area a dual rail covers.

use vstd::prelude::*;
use crate::surface::vpoint::{VPoint, fits_i32, vpoint_at, manhattan};
use crate::surface::direction::{RailDirection, rail_spin, rail_dx, rail_dy, rail_direction_index, rail_direction_from_index};
use crate::surface::vsurface::{VSurface, VError, out_of_bounds, xy_index};
use crate::surface::varea::{VArea, area_contains};
use crate::surface::pixel::Pixel;
use crate::text::{seq_join, strings_view, nat_decimal, join_strings, format_u64};
use crate::admiral::lua_command::{BoxedLuaCommand, CommandView, commands_view};
use crate::admiral::lua_command::fac_surface_create_entity::FacSurfaceCreateEntity;
use crate::admiral::generators::rail90::{straight_rail, half_at};

verus! {

/// Rails per straight step of the navigation grid.
pub const RAIL_STEP_SIZE: u32 = 8;

/// Whether a section of rail goes straight or turns.
#[derive(Clone, Copy, PartialEq, Eq, Structural, Debug, Hash)]
pub enum RailMode {
    Straight,
    Turn(TurnType),
}

impl RailMode {
    pub fn is_turn(&self) -> (r: bool)
        ensures
            r == (*self is Turn),
    {
        match *self {
            RailMode::Turn(_) => true,
            RailMode::Straight => false,
        }
    }
}

/// A right turn (`Turn90`) or a left turn (`Turn270`).
#[derive(Clone, Copy, PartialEq, Eq, Structural, Debug, Hash)]
pub enum TurnType {
    Turn90,
    Turn270,
}

/// Clockwise quarter turns of a turn type.
pub open spec fn turn_rotations(t: TurnType) -> int {
    match t {
        TurnType::Turn90 => 1,
        TurnType::Turn270 => 3,
    }
}

/// The other turn type.
pub open spec fn turn_swap(t: TurnType) -> TurnType {
    match t {
        TurnType::Turn90 => TurnType::Turn270,
        TurnType::Turn270 => TurnType::Turn90,
    }
}

impl TurnType {
    pub fn rotations(&self) -> (r: usize)
        ensures
            r == turn_rotations(*self),
    {
        match self {
            TurnType::Turn90 => 1,
            TurnType::Turn270 => 3,
        }
    }

    pub fn swap(&self) -> (r: Self)
        ensures
            r == turn_swap(*self),
    {
        match self {
            TurnType::Turn90 => TurnType::Turn270,
            TurnType::Turn270 => TurnType::Turn90,
        }
    }
}

/// The end of a section of rail: where it ends, which way it runs, and how it got there.
#[derive(Clone, Copy, PartialEq, Eq, Structural, Debug, Hash)]
pub struct Rail {
    pub endpoint: VPoint,
    pub direction: RailDirection,
    pub mode: RailMode,
}

/// Coordinates `n` half-steps (micro steps) ahead of `p` in direction `d`.
pub open spec fn micro_moved(p: VPoint, d: RailDirection, n: int) -> (int, int) {
    (p.x + rail_dx(d) * n, p.y + rail_dy(d) * n)
}

/// Whether moving `n` micro steps stays in the `i32` range.
pub open spec fn micro_fits(p: VPoint, d: RailDirection, n: int) -> bool {
    fits_i32(micro_moved(p, d, n).0) && fits_i32(micro_moved(p, d, n).1)
}

/// The point `n` micro steps ahead.
pub open spec fn micro_point(p: VPoint, d: RailDirection, n: int) -> VPoint {
    vpoint_at(micro_moved(p, d, n).0, micro_moved(p, d, n).1)
}

/// The rail rotated clockwise, in place.
pub open spec fn rail_rotated(r: Rail, rotations: int) -> Rail {
    Rail { endpoint: r.endpoint, direction: rail_spin(r.direction, rotations), mode: r.mode }
}

/// The rail moved `n` micro steps forward, keeping its mode.
pub open spec fn rail_forward(r: Rail, n: int) -> Rail {
    Rail { endpoint: micro_point(r.endpoint, r.direction, n), direction: r.direction, mode: r.mode }
}

/// One straight step of the grid: 8 rails of 2 tiles.
pub open spec fn rail_step(r: Rail) -> Rail {
    Rail { mode: RailMode::Straight, ..rail_forward(r, 16) }
}

/// A turn: a step forward, a rotation, a step in the new direction.
pub open spec fn rail_rotating(r: Rail, t: TurnType) -> Rail {
    Rail { mode: RailMode::Turn(t), ..rail_step(rail_rotated(rail_step(r), turn_rotations(t))) }
}

/// Whether a turn stays in the `i32` range.
pub open spec fn rotating_fits(r: Rail, t: TurnType) -> bool {
    let first = rail_step(r);
    &&& micro_fits(r.endpoint, r.direction, 16)
    &&& micro_fits(first.endpoint, rail_spin(r.direction, turn_rotations(t)), 16)
}

impl Rail {
    pub fn new_straight(endpoint: VPoint, direction: RailDirection) -> (r: Self)
        ensures
            r == (Rail { endpoint, direction, mode: RailMode::Straight }),
    {
        Rail { endpoint, mode: RailMode::Straight, direction }
    }

    /// Manhattan distance between the endpoints.
    pub fn distance_to(&self, other: &Rail) -> (r: u32)
        requires
            manhattan(self.endpoint, other.endpoint) <= u32::MAX,
        ensures
            r == manhattan(self.endpoint, other.endpoint),
    {
        self.endpoint.distance_to(&other.endpoint)
    }

    pub fn move_force_rotate_clockwise(&self, rotations: usize) -> (r: Self)
        ensures
            r == rail_rotated(*self, rotations as int),
    {
        Rail {
            endpoint: self.endpoint,
            direction: self.direction.spinner(rotations),
            mode: self.mode,
        }
    }

    fn move_force_forward_micro_num_mut(&mut self, steps: i32)
        requires
            micro_fits(old(self).endpoint, old(self).direction, steps as int),
        ensures
            *final(self) == rail_forward(*old(self), steps as int),
    {
        self.endpoint = match self.direction {
            RailDirection::Up => VPoint { x: self.endpoint.x, y: self.endpoint.y + steps },
            RailDirection::Down => VPoint { x: self.endpoint.x, y: self.endpoint.y - steps },
            RailDirection::Left => VPoint { x: self.endpoint.x - steps, y: self.endpoint.y },
            RailDirection::Right => VPoint { x: self.endpoint.x + steps, y: self.endpoint.y },
        };
    }

    fn move_force_forward_single_num_mut(&mut self, steps: i32)
        requires
            fits_i32(2 * steps),
            micro_fits(old(self).endpoint, old(self).direction, 2 * steps),
        ensures
            *final(self) == rail_forward(*old(self), 2 * steps),
    {
        // rail is 2x2
        let steps = steps * 2;
        self.move_force_forward_micro_num_mut(steps)
    }

    /// Forward by `steps` micro steps (half a rail each), keeping the mode.
    pub fn move_forward_micro_num(&self, steps: u32) -> (r: Self)
        requires
            steps <= i32::MAX,
            micro_fits(self.endpoint, self.direction, steps as int),
        ensures
            r == rail_forward(*self, steps as int),
    {
        let mut next = *self;
        next.move_force_forward_micro_num_mut(steps as i32);
        next
    }

    /// Forward by `steps` rails of 2 tiles, keeping the mode.
    pub fn move_forward_single_num(&self, steps: u32) -> (r: Self)
        requires
            2 * steps <= i32::MAX,
            micro_fits(self.endpoint, self.direction, 2 * steps),
        ensures
            r == rail_forward(*self, 2 * steps),
    {
        let mut next = *self;
        next.move_force_forward_single_num_mut(steps as i32);
        next
    }

    /// Forward by one rail, as a straight section.
    pub fn move_forward_single(&self) -> (r: Self)
        requires
            micro_fits(self.endpoint, self.direction, 2),
        ensures
            r == (Rail { mode: RailMode::Straight, ..rail_forward(*self, 2) }),
    {
        let mut next = self.move_forward_single_num(1);
        next.mode = RailMode::Straight;
        next
    }

    /// Forward by `steps` grid steps, as a straight section.
    pub fn move_forward_step_num(&self, steps: u32) -> (r: Self)
        requires
            16 * steps <= i32::MAX,
            micro_fits(self.endpoint, self.direction, 16 * steps),
        ensures
            r == (Rail { mode: RailMode::Straight, ..rail_forward(*self, 16 * steps) }),
    {
        let mut next = self.move_forward_single_num(RAIL_STEP_SIZE * steps);
        next.mode = RailMode::Straight;
        next
    }

    /// Forward by one grid step, as a straight section.
    pub fn move_forward_step(&self) -> (r: Self)
        requires
            micro_fits(self.endpoint, self.direction, 16),
        ensures
            r == rail_step(*self),
    {
        self.move_forward_step_num(1)
    }

    /// Turn by `turn_type`: a step forward, a rotation, a step in the new direction.
    pub fn move_rotating(&self, turn_type: TurnType) -> (r: Self)
        requires
            rotating_fits(*self, turn_type),
        ensures
            r == rail_rotating(*self, turn_type),
    {
        let next = self.move_forward_step();
        let next = next.move_force_rotate_clockwise(turn_type.rotations());
        let mut next = next.move_forward_step();
        next.mode = RailMode::Turn(turn_type);
        next
    }

    /// Turn left (three clockwise quarter turns).
    pub fn move_left(&self) -> (r: Self)
        requires
            rotating_fits(*self, TurnType::Turn270),
        ensures
            r == rail_rotating(*self, TurnType::Turn270),
    {
        self.move_rotating(TurnType::Turn270)
    }

    /// Turn right (one clockwise quarter turn).
    pub fn move_right(&self) -> (r: Self)
        requires
            rotating_fits(*self, TurnType::Turn90),
        ensures
            r == rail_rotating(*self, TurnType::Turn90),
    {
        self.move_rotating(TurnType::Turn90)
    }

    /// Signed distance to `other` along the axis this rail runs on.
    pub fn distance_between_parallel_axis(&self, other: &Rail) -> (r: i32)
        requires
            fits_i32(self.endpoint.x - other.endpoint.x),
            fits_i32(self.endpoint.y - other.endpoint.y),
        ensures
            r == if rail_dx(self.direction) != 0 {
                self.endpoint.x - other.endpoint.x
            } else {
                self.endpoint.y - other.endpoint.y
            },
    {
        match self.direction {
            RailDirection::Left | RailDirection::Right => self.endpoint.subtract_x(&other.endpoint),
            RailDirection::Up | RailDirection::Down => self.endpoint.subtract_y(&other.endpoint),
        }
    }

    /// Signed distance to `other` across the axis this rail runs on.
    pub fn distance_between_perpendicular_axis(&self, other: &VPoint) -> (r: i32)
        requires
            fits_i32(self.endpoint.x - other.x),
            fits_i32(self.endpoint.y - other.y),
        ensures
            r == if rail_dx(self.direction) != 0 {
                self.endpoint.y - other.y
            } else {
                self.endpoint.x - other.x
            },
    {
        match self.direction {
            RailDirection::Left | RailDirection::Right => self.endpoint.subtract_y(other),
            RailDirection::Up | RailDirection::Down => self.endpoint.subtract_x(other),
        }
    }

    /// Signed distance between two points across the axis this rail runs on.
    pub fn distance_between_perpendicular_axis_arbitrary(&self, lhs: &VPoint, rhs: &VPoint) -> (r: i32)
        requires
            fits_i32(lhs.x - rhs.x),
            fits_i32(lhs.y - rhs.y),
        ensures
            r == if rail_dx(self.direction) != 0 { lhs.y - rhs.y } else { lhs.x - rhs.x },
    {
        match self.direction {
            RailDirection::Left | RailDirection::Right => lhs.subtract_y(rhs),
            RailDirection::Up | RailDirection::Down => lhs.subtract_x(rhs),
        }
    }

    /// The coordinate of `end` across the axis this rail runs on.
    pub fn distance_between_perpendicular_axis_arbitrary_zero(&self, end: &VPoint) -> (r: i32)
        ensures
            r == if rail_dx(self.direction) != 0 { end.y } else { end.x },
    {
        match self.direction {
            RailDirection::Left | RailDirection::Right => end.y(),
            RailDirection::Up | RailDirection::Down => end.x(),
        }
    }
}

/// Four clockwise quarter turns give back the same direction, and turns add up.
pub proof fn law_spin_compose(d: RailDirection, a: int, b: int)
    requires
        a >= 0,
        b >= 0,
    ensures
        rail_spin(rail_spin(d, a), b) == rail_spin(d, a + b),
        rail_spin(d, 4) == d,
        rail_spin(d, 0) == d,
{
    let i = rail_direction_index(d);
    let j = (i + a) % 4;
    assert(rail_direction_index(rail_spin(d, a)) == j);
    assert((j + b) % 4 == (i + a + b) % 4) by (nonlinear_arith)
        requires
            j == (i + a) % 4,
    ;
}

/// Turning left from `Up` runs `Left`, right runs `Right`; from `Down` the
/// reverse: a turn changes direction by one quarter.
pub proof fn law_turn_direction(r: Rail, t: TurnType)
    ensures
        rail_rotating(r, t).direction == rail_spin(r.direction, turn_rotations(t)),
        r.direction == RailDirection::Up ==> rail_rotating(r, TurnType::Turn270).direction == RailDirection::Left,
        r.direction == RailDirection::Up ==> rail_rotating(r, TurnType::Turn90).direction == RailDirection::Right,
        r.direction == RailDirection::Down ==> rail_rotating(r, TurnType::Turn270).direction == RailDirection::Right,
        r.direction == RailDirection::Down ==> rail_rotating(r, TurnType::Turn90).direction == RailDirection::Left,
{
}

/// Four turns the same way close a loop: the rail is back at its endpoint,
/// running in its direction.
pub proof fn law_four_turns_close_loop(r: Rail, t: TurnType)
    requires
        r.endpoint.x - 32 >= i32::MIN,
        r.endpoint.x + 32 <= i32::MAX,
        r.endpoint.y - 32 >= i32::MIN,
        r.endpoint.y + 32 <= i32::MAX,
    ensures
        rotating_fits(r, t),
        rotating_fits(rail_rotating(r, t), t),
        rotating_fits(rail_rotating(rail_rotating(r, t), t), t),
        rotating_fits(rail_rotating(rail_rotating(rail_rotating(r, t), t), t), t),
        rail_rotating(rail_rotating(rail_rotating(rail_rotating(r, t), t), t), t).endpoint == r.endpoint,
        rail_rotating(rail_rotating(rail_rotating(rail_rotating(r, t), t), t), t).direction == r.direction,
{
}


/// Coordinate of a point along the axis of direction `d` (signed by `d`).
pub open spec fn along_axis(p: VPoint, d: RailDirection) -> int {
    match d {
        RailDirection::Up => p.y as int,
        RailDirection::Down => -p.y,
        RailDirection::Left => -p.x,
        RailDirection::Right => p.x as int,
    }
}

/// Moving forward keeps the coordinates exact while they fit.
pub proof fn lemma_forward_exact(r: Rail, n: int)
    requires
        micro_fits(r.endpoint, r.direction, n),
    ensures
        rail_forward(r, n).endpoint.x == r.endpoint.x + rail_dx(r.direction) * n,
        rail_forward(r, n).endpoint.y == r.endpoint.y + rail_dy(r.direction) * n,
        rail_forward(r, n).direction == r.direction,
{
}

/// Moving stays in range between two positions that are in range.
pub proof fn lemma_fits_between(p: VPoint, d: RailDirection, n: int, b: int)
    requires
        0 <= n <= b,
        micro_fits(p, d, 0),
        micro_fits(p, d, b),
    ensures
        micro_fits(p, d, n),
{
    let dx = rail_dx(d);
    let dy = rail_dy(d);
    assert(-1 <= dx <= 1 && -1 <= dy <= 1);
    assert(dx * n <= if dx * b > 0 { dx * b } else { 0 }) by (nonlinear_arith)
        requires -1 <= dx <= 1, 0 <= n <= b;
    assert(dx * n >= if dx * b < 0 { dx * b } else { 0 }) by (nonlinear_arith)
        requires -1 <= dx <= 1, 0 <= n <= b;
    assert(dy * n <= if dy * b > 0 { dy * b } else { 0 }) by (nonlinear_arith)
        requires -1 <= dy <= 1, 0 <= n <= b;
    assert(dy * n >= if dy * b < 0 { dy * b } else { 0 }) by (nonlinear_arith)
        requires -1 <= dy <= 1, 0 <= n <= b;
}

/// Where a turn ends, in exact coordinates.
pub proof fn lemma_rotating_exact(r: Rail, t: TurnType)
    requires
        rotating_fits(r, t),
    ensures
        rail_rotating(r, t).endpoint.x == r.endpoint.x + 16 * rail_dx(r.direction)
            + 16 * rail_dx(rail_spin(r.direction, turn_rotations(t))),
        rail_rotating(r, t).endpoint.y == r.endpoint.y + 16 * rail_dy(r.direction)
            + 16 * rail_dy(rail_spin(r.direction, turn_rotations(t))),
        rail_rotating(r, t).direction == rail_spin(r.direction, turn_rotations(t)),
{
    lemma_forward_exact(r, 16);
    lemma_forward_exact(rail_rotated(rail_step(r), turn_rotations(t)), 16);
}

/// A wave (right, left, left, right) comes back to the line it started on,
/// four grid steps further, running in its original direction. So does the
/// mirrored wave (left, right, right, left).
#[verifier::rlimit(40)]
pub proof fn law_wave_returns_to_center_line(r: Rail, first: TurnType)
    requires
        r.endpoint.x - 64 >= i32::MIN,
        r.endpoint.x + 64 <= i32::MAX,
        r.endpoint.y - 64 >= i32::MIN,
        r.endpoint.y + 64 <= i32::MAX,
    ensures
        ({
            let a = rail_rotating(r, first);
            let b = rail_rotating(a, turn_swap(first));
            let c = rail_rotating(b, turn_swap(first));
            let w = rail_rotating(c, first);
            &&& rotating_fits(r, first)
            &&& rotating_fits(a, turn_swap(first))
            &&& rotating_fits(b, turn_swap(first))
            &&& rotating_fits(c, first)
            &&& w.direction == r.direction
            &&& w.endpoint == micro_point(r.endpoint, r.direction, 64)
        }),
{
    let second = turn_swap(first);
    assert(rotating_fits(r, first));
    lemma_rotating_exact(r, first);
    let a = rail_rotating(r, first);
    assert(rotating_fits(a, second));
    lemma_rotating_exact(a, second);
    let b = rail_rotating(a, second);
    assert(rotating_fits(b, second));
    lemma_rotating_exact(b, second);
    let c = rail_rotating(b, second);
    assert(rotating_fits(c, first));
    lemma_rotating_exact(c, first);
}

/// Along the axis it started on, a turn advances exactly as far as a straight step.
pub proof fn law_turn_advances_like_step(r: Rail, t: TurnType)
    requires
        rotating_fits(r, t),
    ensures
        along_axis(rail_rotating(r, t).endpoint, r.direction) == along_axis(rail_step(r).endpoint, r.direction),
        along_axis(rail_step(r).endpoint, r.direction) == along_axis(r.endpoint, r.direction) + 16,
{
    lemma_rotating_exact(r, t);
    lemma_forward_exact(r, 16);
    match r.direction {
        RailDirection::Up => {},
        RailDirection::Down => {},
        RailDirection::Left => {},
        RailDirection::Right => {},
    }
}

/// Rails `2 * k` micro steps ahead of `r`, for `k` in `start..end`.
pub open spec fn straight_line(r: Rail, start: int, end: int) -> Seq<Rail> {
    Seq::new((end - start) as nat, |k: int| rail_forward(r, 2 * (start + k)))
}

/// The rail that starts the right-hand track of a dual rail behind `r`.
pub open spec fn dual_side_a(r: Rail) -> Rail {
    rail_rotated(rail_forward(rail_rotated(r, 1), 2), 1)
}

/// The rail that starts the left-hand track of a dual rail behind `r`.
pub open spec fn dual_side_b(r: Rail) -> Rail {
    rail_rotated(rail_forward(rail_rotated(r, 3), 2), 3)
}

/// Both tracks of a dual rail of `length` rails behind `r`.
pub open spec fn dual_straight_behind(r: Rail, length: int) -> Seq<Rail> {
    straight_line(dual_side_a(r), 0, length) + straight_line(dual_side_b(r), 0, length)
}

/// Whether a dual rail of `length` rails behind `r` stays in the `i32` range.
pub open spec fn dual_fits(r: Rail, length: int) -> bool {
    &&& micro_fits(r.endpoint, rail_spin(r.direction, 1), 2)
    &&& micro_fits(r.endpoint, rail_spin(r.direction, 3), 2)
    &&& 2 * length <= i32::MAX
    &&& (length > 0 ==> micro_fits(dual_side_a(r).endpoint, dual_side_a(r).direction, 2 * (length - 1)))
    &&& (length > 0 ==> micro_fits(dual_side_b(r).endpoint, dual_side_b(r).direction, 2 * (length - 1)))
}

impl Rail {
    fn build_straight_rail_line(&self, result: &mut Vec<Rail>, start: u32, end: u32)
        requires
            start <= end,
            2 * end <= i32::MAX,
            micro_fits(self.endpoint, self.direction, 0),
            end > 0 ==> micro_fits(self.endpoint, self.direction, 2 * (end - 1)),
        ensures
            final(result)@ == old(result)@ + straight_line(*self, start as int, end as int),
    {
        let ghost prefix = result@;
        let mut i = start;
        while i < end
            invariant
                start <= i <= end,
                2 * end <= i32::MAX,
                micro_fits(self.endpoint, self.direction, 0),
                end > 0 ==> micro_fits(self.endpoint, self.direction, 2 * (end - 1)),
                result@ == prefix + straight_line(*self, start as int, i as int),
            decreases end - i,
        {
            proof {
                lemma_fits_between(self.endpoint, self.direction, 2 * i, 2 * (end - 1));
            }
            let next = self.move_forward_single_num(i);
            result.push(next);
            proof {
                assert(straight_line(*self, start as int, i + 1) =~= straight_line(*self, start as int, i as int).push(next));
            }
            i = i + 1;
        }
    }

    /// Both tracks of a dual rail running behind this rail, `length` rails each:
    /// first the track to its right, then the track to its left.
    pub fn build_dual_straight_behind_rail(&self, length: u32) -> (r: Vec<Rail>)
        requires
            dual_fits(*self, length as int),
        ensures
            r@ == dual_straight_behind(*self, length as int),
    {
        let mut result = Vec::new();

        let side_a = self.move_force_rotate_clockwise(1).move_forward_single_num(1).move_force_rotate_clockwise(1);
        side_a.build_straight_rail_line(&mut result, 0, length);

        let side_b = self.move_force_rotate_clockwise(3).move_forward_single_num(1).move_force_rotate_clockwise(3);
        side_b.build_straight_rail_line(&mut result, 0, length);

        proof {
            assert(result@ =~= dual_straight_behind(*self, length as int));
        }
        result
    }
}


/// The four tiles a 2x2 entity covers, from its top left tile.
pub open spec fn area_2x2(p: VPoint) -> Seq<VPoint> {
    seq![p, vpoint_at(p.x + 1, p.y as int), vpoint_at(p.x as int, p.y + 1), vpoint_at(p.x + 1, p.y + 1)]
}

/// The 2x2 tiles under each rail, rail by rail.
pub open spec fn rails_points(rails: Seq<Rail>) -> Seq<VPoint>
    decreases rails.len(),
{
    if rails.len() == 0 {
        Seq::empty()
    } else {
        rails_points(rails.drop_last()) + area_2x2(rails.last().endpoint)
    }
}

/// The points that lie inside the surface of the given radius, in order.
pub open spec fn points_in_bounds(radius: int, pts: Seq<VPoint>) -> Seq<VPoint>
    decreases pts.len(),
{
    if pts.len() == 0 {
        Seq::empty()
    } else {
        points_in_bounds(radius, pts.drop_last()) + if out_of_bounds(radius, pts.last()) {
            Seq::empty()
        } else {
            seq![pts.last()]
        }
    }
}

/// Whether some point lies outside the surface of the given radius.
pub open spec fn any_out_of_bounds(radius: int, pts: Seq<VPoint>) -> bool {
    exists|i: int| 0 <= i < pts.len() && out_of_bounds(radius, #[trigger] pts[i])
}

/// The straight leg a turn came from, as the rail at its start.
pub open spec fn turn_leg(r: Rail, t: TurnType) -> Rail {
    rail_rotated(rail_step(rail_rotated(r, 2)), turn_rotations(t))
}

/// Every tile under a section of rail: the dual rail behind it, and for a
/// turn also the dual rail of the leg it turned from.
pub open spec fn rail_area_points(r: Rail) -> Seq<VPoint> {
    match r.mode {
        RailMode::Straight => rails_points(dual_straight_behind(r, 8)),
        RailMode::Turn(t) => rails_points(dual_straight_behind(r, 8)) + rails_points(dual_straight_behind(turn_leg(r, t), 8)),
    }
}

/// Whether the 2x2 tiles of every rail fit in the `i32` range.
pub open spec fn rails_2x2_fit(rails: Seq<Rail>) -> bool {
    forall|i: int| 0 <= i < rails.len() ==> #[trigger] rails[i].endpoint.x < i32::MAX && rails[i].endpoint.y < i32::MAX
}

/// Whether computing the area of a section of rail stays in the `i32` range.
pub open spec fn area_fits(r: Rail) -> bool {
    &&& dual_fits(r, 8)
    &&& rails_2x2_fit(dual_straight_behind(r, 8))
    &&& (r.mode is Turn ==> {
        let t = r.mode->Turn_0;
        &&& micro_fits(r.endpoint, rail_spin(r.direction, 2), 16)
        &&& dual_fits(turn_leg(r, t), 8)
        &&& rails_2x2_fit(dual_straight_behind(turn_leg(r, t), 8))
    })
}

/// Paint every point, in order, on a pixel sequence.
pub open spec fn paint(pixels: Seq<Pixel>, radius: int, pts: Seq<VPoint>, pixel: Pixel) -> Seq<Pixel>
    decreases pts.len(),
{
    if pts.len() == 0 {
        pixels
    } else {
        paint(pixels, radius, pts.drop_last(), pixel).update(xy_index(radius, pts.last()), pixel)
    }
}

/// Pixels after writing a path of rails: each rail's in-bounds area as
/// `pixel`, then its endpoint as iron ore.
pub open spec fn paint_rails(pixels: Seq<Pixel>, radius: int, path: Seq<Rail>, pixel: Pixel) -> Seq<Pixel>
    decreases path.len(),
{
    if path.len() == 0 {
        pixels
    } else {
        let before = paint_rails(pixels, radius, path.drop_last(), pixel);
        let last = path.last();
        paint(before, radius, points_in_bounds(radius, rail_area_points(last)), pixel).update(
            xy_index(radius, last.endpoint),
            Pixel::IronOre,
        )
    }
}

/// The tiles 2x2 entity covers, from its top left tile.
pub fn get_entity_area_2x2(p: &VPoint) -> (r: [VPoint; 4])
    requires
        p.x < i32::MAX,
        p.y < i32::MAX,
    ensures
        r@ == area_2x2(*p),
{
    [*p, VPoint { x: p.x + 1, y: p.y }, VPoint { x: p.x, y: p.y + 1 }, VPoint { x: p.x + 1, y: p.y + 1 }]
}

fn push_rails_area(rails: &Vec<Rail>, surface: &VSurface, res: &mut Vec<VPoint>, dirty: &mut bool)
    requires
        rails_2x2_fit(rails@),
    ensures
        final(res)@ == old(res)@ + points_in_bounds(surface.spec_radius(), rails_points(rails@)),
        *final(dirty) == (*old(dirty) || any_out_of_bounds(surface.spec_radius(), rails_points(rails@))),
{
    let ghost radius = surface.spec_radius();
    let ghost res0 = res@;
    let ghost dirty0 = *dirty;
    let mut i: usize = 0;
    while i < rails.len()
        invariant
            i <= rails@.len(),
            rails_2x2_fit(rails@),
            radius == surface.spec_radius(),
            res@ == res0 + points_in_bounds(radius, rails_points(rails@.take(i as int))),
            *dirty == (dirty0 || any_out_of_bounds(radius, rails_points(rails@.take(i as int)))),
        decreases rails@.len() - i,
    {
        let ghost before = rails_points(rails@.take(i as int));
        proof {
            assert(rails@.take(i + 1).drop_last() =~= rails@.take(i as int));
            assert(rails@.take(i + 1).last() == rails@[i as int]);
            assert(rails@[i as int].endpoint.x < i32::MAX);
        }
        let corners = get_entity_area_2x2(&rails[i].endpoint);
        let mut k: usize = 0;
        while k < 4
            invariant
                k <= 4,
                corners@ == area_2x2(rails@[i as int].endpoint),
                radius == surface.spec_radius(),
                res@ == res0 + points_in_bounds(radius, before + corners@.take(k as int)),
                *dirty == (dirty0 || any_out_of_bounds(radius, before + corners@.take(k as int))),
            decreases 4 - k,
        {
            let ghost prev = before + corners@.take(k as int);
            let point = corners[k];
            proof {
                assert((before + corners@.take(k + 1)).drop_last() =~= prev);
                assert((before + corners@.take(k + 1)).last() == point);
            }
            if !surface.is_point_out_of_bounds(&point) {
                res.push(point);
                proof {
                    assert(points_in_bounds(radius, before + corners@.take(k + 1)) =~= points_in_bounds(radius, prev).push(point));
                }
            } else {
                *dirty = true;
                proof {
                    let cur = before + corners@.take(k + 1);
                    assert(cur[cur.len() - 1] == point);
                    assert(points_in_bounds(radius, cur) =~= points_in_bounds(radius, prev));
                }
            }
            proof {
                let cur = before + corners@.take(k + 1);
                if any_out_of_bounds(radius, prev) {
                    let j = choose|j: int| 0 <= j < prev.len() && out_of_bounds(radius, #[trigger] prev[j]);
                    assert(cur[j] == prev[j]);
                }
                if any_out_of_bounds(radius, cur) && !out_of_bounds(radius, point) {
                    let j = choose|j: int| 0 <= j < cur.len() && out_of_bounds(radius, #[trigger] cur[j]);
                    assert(j < prev.len());
                    assert(prev[j] == cur[j]);
                }
                if out_of_bounds(radius, point) {
                    assert(cur[cur.len() - 1] == point);
                }
            }
            k = k + 1;
        }
        proof {
            assert(corners@.take(4) =~= corners@);
            assert(rails_points(rails@.take(i + 1)) =~= before + area_2x2(rails@[i as int].endpoint));
        }
        i = i + 1;
    }
    proof {
        assert(rails@.take(rails@.len() as int) =~= rails@);
    }
}

impl Rail {
    /// Tiles underneath this section of rail that lie on the surface, and
    /// whether some tile fell outside it.
    pub fn area(&self, surface: &VSurface) -> (r: (Vec<VPoint>, bool))
        requires
            area_fits(*self),
        ensures
            r.0@ == points_in_bounds(surface.spec_radius(), rail_area_points(*self)),
            r.1 == any_out_of_bounds(surface.spec_radius(), rail_area_points(*self)),
    {
        let ghost radius = surface.spec_radius();
        let mut res: Vec<VPoint> = Vec::new();
        let mut dirty = false;
        let rails = self.build_dual_straight_behind_rail(RAIL_STEP_SIZE);
        push_rails_area(&rails, surface, &mut res, &mut dirty);
        match self.mode {
            RailMode::Straight => {},
            RailMode::Turn(turn_type) => {
                let leg = self.move_force_rotate_clockwise(2).move_forward_step().move_force_rotate_clockwise(
                    turn_type.rotations(),
                );
                let leg_rails = leg.build_dual_straight_behind_rail(RAIL_STEP_SIZE);
                let ghost first = rails_points(rails@);
                let ghost second = rails_points(leg_rails@);
                push_rails_area(&leg_rails, surface, &mut res, &mut dirty);
                proof {
                    lemma_points_in_bounds_concat(radius, first, second);
                    if any_out_of_bounds(radius, first + second) {
                        let j = choose|j: int| 0 <= j < (first + second).len() && out_of_bounds(radius, #[trigger] (first + second)[j]);
                        if j < first.len() {
                            assert(first[j] == (first + second)[j]);
                        } else {
                            assert(second[j - first.len()] == (first + second)[j]);
                        }
                    }
                    if any_out_of_bounds(radius, first) {
                        let j = choose|j: int| 0 <= j < first.len() && out_of_bounds(radius, #[trigger] first[j]);
                        assert((first + second)[j] == first[j]);
                    }
                    if any_out_of_bounds(radius, second) {
                        let j = choose|j: int| 0 <= j < second.len() && out_of_bounds(radius, #[trigger] second[j]);
                        assert((first + second)[first.len() + j] == second[j]);
                    }
                }
            },
        }
        (res, dirty)
    }

    /// Whether every tile under this section lies on the surface and is empty.
    pub fn is_area_buildable_fast(&self, surface: &VSurface) -> (r: bool)
        requires
            surface.wf(),
            area_fits(*self),
        ensures
            r == (!any_out_of_bounds(surface.spec_radius(), rail_area_points(*self)) && forall|i: int|
                0 <= i < rail_area_points(*self).len() ==> surface.pixel_at(
                    #[trigger] rail_area_points(*self)[i],
                ) == Pixel::Empty),
    {
        let (area, dirty) = self.area(surface);
        if dirty {
            return false;
        }
        proof {
            lemma_no_out_of_bounds_keeps_all(surface.spec_radius(), rail_area_points(*self));
        }
        surface.is_points_free_unchecked(area.as_slice())
    }

    /// This rail if its endpoint lies in the search area and its tiles are free.
    pub fn into_buildable_simple(self, surface: &VSurface, search_area: &VArea) -> (r: Option<Self>)
        requires
            surface.wf(),
            area_fits(self),
        ensures
            r is Some <==> (area_contains(*search_area, self.endpoint) && !any_out_of_bounds(
                surface.spec_radius(),
                rail_area_points(self),
            ) && forall|i: int|
                0 <= i < rail_area_points(self).len() ==> surface.pixel_at(#[trigger] rail_area_points(self)[i])
                    == Pixel::Empty),
            r is Some ==> r == Some(self),
    {
        if !search_area.contains_point(&self.endpoint) {
            return None;
        }
        if self.is_area_buildable_fast(surface) {
            Some(self)
        } else {
            None
        }
    }
}

/// Filtering distributes over concatenation.
pub proof fn lemma_points_in_bounds_concat(radius: int, a: Seq<VPoint>, b: Seq<VPoint>)
    ensures
        points_in_bounds(radius, a + b) == points_in_bounds(radius, a) + points_in_bounds(radius, b),
    decreases b.len(),
{
    if b.len() == 0 {
        assert(a + b =~= a);
        assert(points_in_bounds(radius, a) + points_in_bounds(radius, b) =~= points_in_bounds(radius, a));
    } else {
        assert((a + b).drop_last() =~= a + b.drop_last());
        assert((a + b).last() == b.last());
        lemma_points_in_bounds_concat(radius, a, b.drop_last());
        assert(points_in_bounds(radius, a + b) =~= points_in_bounds(radius, a) + points_in_bounds(radius, b));
    }
}

/// With no point out of bounds, filtering keeps every point.
pub proof fn lemma_no_out_of_bounds_keeps_all(radius: int, pts: Seq<VPoint>)
    requires
        !any_out_of_bounds(radius, pts),
    ensures
        points_in_bounds(radius, pts) == pts,
    decreases pts.len(),
{
    if pts.len() > 0 {
        assert(!out_of_bounds(radius, pts[pts.len() - 1]));
        assert forall|i: int| 0 <= i < pts.drop_last().len() implies !out_of_bounds(radius, #[trigger] pts.drop_last()[i]) by {
            assert(pts.drop_last()[i] == pts[i]);
        }
        lemma_no_out_of_bounds_keeps_all(radius, pts.drop_last());
        assert(pts.drop_last().push(pts.last()) =~= pts);
    }
}

/// Every point kept by filtering lies in bounds.
pub proof fn lemma_points_in_bounds_are_in_bounds(radius: int, pts: Seq<VPoint>)
    ensures
        forall|i: int| 0 <= i < points_in_bounds(radius, pts).len() ==> !out_of_bounds(radius, #[trigger] points_in_bounds(radius, pts)[i]),
    decreases pts.len(),
{
    if pts.len() > 0 {
        lemma_points_in_bounds_are_in_bounds(radius, pts.drop_last());
        let prev = points_in_bounds(radius, pts.drop_last());
        let cur = points_in_bounds(radius, pts);
        assert forall|i: int| 0 <= i < cur.len() implies !out_of_bounds(radius, #[trigger] cur[i]) by {
            if i < prev.len() {
                assert(cur[i] == prev[i]);
            }
        }
    }
}


fn paint_points(surface: &mut VSurface, points: &Vec<VPoint>, pixel: Pixel)
    requires
        old(surface).wf(),
        forall|i: int| 0 <= i < points@.len() ==> !out_of_bounds(old(surface).spec_radius(), #[trigger] points@[i]),
    ensures
        final(surface).wf(),
        final(surface).spec_radius() == old(surface).spec_radius(),
        final(surface).spec_pixels() == paint(old(surface).spec_pixels(), old(surface).spec_radius(), points@, pixel),
{
    let ghost pixels0 = surface.spec_pixels();
    let ghost radius = surface.spec_radius();
    let mut i: usize = 0;
    while i < points.len()
        invariant
            surface.wf(),
            i <= points@.len(),
            surface.spec_radius() == radius,
            forall|j: int| 0 <= j < points@.len() ==> !out_of_bounds(radius, #[trigger] points@[j]),
            surface.spec_pixels() == paint(pixels0, radius, points@.take(i as int), pixel),
        decreases points@.len() - i,
    {
        let point = points[i];
        let res = surface.set_pixel(point, pixel);
        proof {
            assert(!out_of_bounds(radius, points@[i as int]));
            assert(points@.take(i + 1).drop_last() =~= points@.take(i as int));
            assert(points@.take(i + 1).last() == point);
        }
        i = i + 1;
    }
    proof {
        assert(points@.take(points@.len() as int) =~= points@);
    }
}

fn write_one_rail(surface: &mut VSurface, path_rail: Rail, pixel: Pixel)
    requires
        old(surface).wf(),
        area_fits(path_rail),
        !out_of_bounds(old(surface).spec_radius(), path_rail.endpoint),
    ensures
        final(surface).wf(),
        final(surface).spec_radius() == old(surface).spec_radius(),
        final(surface).spec_pixels() == paint(
            old(surface).spec_pixels(),
            old(surface).spec_radius(),
            points_in_bounds(old(surface).spec_radius(), rail_area_points(path_rail)),
            pixel,
        ).update(xy_index(old(surface).spec_radius(), path_rail.endpoint), Pixel::IronOre),
{
    let ghost radius = surface.spec_radius();
    let (area, _dirty) = path_rail.area(surface);
    proof {
        lemma_points_in_bounds_are_in_bounds(radius, rail_area_points(path_rail));
    }
    paint_points(surface, &area, pixel);
    let _ = surface.set_pixel(path_rail.endpoint, Pixel::IronOre);
}

/// Write a path of rails onto the surface: each rail's tiles as `pixel`, its
/// endpoint as iron ore. Tiles off the surface are skipped; every endpoint
/// must lie on it.
pub fn write_rail_with_pixel(surface: &mut VSurface, path: &[Rail], pixel: Pixel) -> (r: Result<(), VError>)
    requires
        old(surface).wf(),
        forall|i: int| 0 <= i < path@.len() ==> area_fits(#[trigger] path@[i]),
        forall|i: int| 0 <= i < path@.len() ==> !out_of_bounds(old(surface).spec_radius(), #[trigger] path@[i].endpoint),
    ensures
        r is Ok,
        final(surface).wf(),
        final(surface).spec_radius() == old(surface).spec_radius(),
        final(surface).spec_pixels() == paint_rails(old(surface).spec_pixels(), old(surface).spec_radius(), path@, pixel),
{
    let ghost pixels0 = surface.spec_pixels();
    let ghost radius = surface.spec_radius();
    let mut i: usize = 0;
    while i < path.len()
        invariant
            surface.wf(),
            i <= path@.len(),
            surface.spec_radius() == radius,
            forall|j: int| 0 <= j < path@.len() ==> area_fits(#[trigger] path@[j]),
            forall|j: int| 0 <= j < path@.len() ==> !out_of_bounds(radius, #[trigger] path@[j].endpoint),
            surface.spec_pixels() == paint_rails(pixels0, radius, path@.take(i as int), pixel),
        decreases path@.len() - i,
    {
        let path_rail = path[i];
        proof {
            assert(area_fits(path@[i as int]));
            assert(!out_of_bounds(radius, path@[i as int].endpoint));
        }
        write_one_rail(surface, path_rail, pixel);
        proof {
            assert(path@.take(i + 1).drop_last() =~= path@.take(i as int));
            assert(path@.take(i + 1).last() == path_rail);
        }
        i = i + 1;
    }
    proof {
        assert(path@.take(path@.len() as int) =~= path@);
    }
    Ok(())
}

/// Write a path of rails onto the surface as rail pixels.
pub fn write_rail(surface: &mut VSurface, path: &[Rail]) -> (r: Result<(), VError>)
    requires
        old(surface).wf(),
        forall|i: int| 0 <= i < path@.len() ==> area_fits(#[trigger] path@[i]),
        forall|i: int| 0 <= i < path@.len() ==> !out_of_bounds(old(surface).spec_radius(), #[trigger] path@[i].endpoint),
    ensures
        r is Ok,
        final(surface).wf(),
        final(surface).spec_radius() == old(surface).spec_radius(),
        final(surface).spec_pixels() == paint_rails(old(surface).spec_pixels(), old(surface).spec_radius(), path@, Pixel::Rail),
{
    write_rail_with_pixel(surface, path, Pixel::Rail)
}

/// Draw one section of rail, its endpoint highlighted. Every tile must lie
/// on the surface.
pub fn draw_rail(surface: &mut VSurface, rail: &Rail)
    requires
        old(surface).wf(),
        area_fits(*rail),
        !any_out_of_bounds(old(surface).spec_radius(), rail_area_points(*rail)),
        !out_of_bounds(old(surface).spec_radius(), rail.endpoint),
    ensures
        final(surface).wf(),
        final(surface).spec_radius() == old(surface).spec_radius(),
        final(surface).spec_pixels() == paint(
            old(surface).spec_pixels(),
            old(surface).spec_radius(),
            rail_area_points(*rail),
            Pixel::Rail,
        ).update(xy_index(old(surface).spec_radius(), rail.endpoint), Pixel::Highlighter),
{
    let ghost radius = surface.spec_radius();
    let (area, dirty) = rail.area(surface);
    proof {
        lemma_no_out_of_bounds_keeps_all(radius, rail_area_points(*rail));
        lemma_points_in_bounds_are_in_bounds(radius, rail_area_points(*rail));
    }
    paint_points(surface, &area, Pixel::Rail);
    let _ = surface.set_pixel(rail.endpoint, Pixel::Highlighter);
}


/// One row of a dump: its cells, and on even rows the row number.
pub open spec fn dump_row(row: Seq<Seq<char>>, i: int) -> Seq<char> {
    seq_join(row, Seq::empty()) + if i % 2 == 0 {
        seq![' ', '/', '/', ' '] + nat_decimal(i as nat)
    } else {
        Seq::empty()
    }
}

/// The text of a dump: its rows, one per line.
pub open spec fn dump_text(rows: Seq<Seq<Seq<char>>>) -> Seq<char> {
    seq_join(Seq::new(rows.len(), |i: int| dump_row(rows[i], i)), seq!['\n'])
}

/// The cells of a grid of strings.
pub open spec fn grid_view(rows: Seq<Vec<String>>) -> Seq<Seq<Seq<char>>> {
    rows.map_values(|r: Vec<String>| strings_view(r@))
}

/// Text of a grid of cells, one row per line, even rows numbered.
pub fn format_dump(binary_surface: &[Vec<String>]) -> (s: String)
    ensures
        s@ == dump_text(grid_view(binary_surface@)),
{
    let ghost rows = grid_view(binary_surface@);
    let mut lines: Vec<String> = Vec::new();
    let mut i: usize = 0;
    while i < binary_surface.len()
        invariant
            i <= binary_surface@.len(),
            rows == grid_view(binary_surface@),
            lines@.len() == i,
            forall|j: int| 0 <= j < i ==> #[trigger] lines@[j]@ == dump_row(rows[j], j),
        decreases binary_surface@.len() - i,
    {
        let mut line = join_strings(&binary_surface[i], "");
        proof {
            reveal_strlit("");
            assert(""@ =~= Seq::<char>::empty());
            assert(rows[i as int] == strings_view(binary_surface@[i as int]@));
            assert(line@ == seq_join(rows[i as int], Seq::empty()));
        }
        if i % 2 == 0 {
            line.append(" // ");
            let number = format_u64(i as u64);
            line.append(number.as_str());
            proof {
                reveal_strlit(" // ");
                assert(line@ =~= dump_row(rows[i as int], i as int));
            }
        } else {
            proof {
                assert(line@ =~= dump_row(rows[i as int], i as int));
            }
        }
        lines.push(line);
        i = i + 1;
    }
    let out = join_strings(&lines, "\n");
    proof {
        reveal_strlit("\n");
        assert("\n"@ =~= seq!['\n']);
        assert(strings_view(lines@) =~= Seq::new(rows.len(), |i: int| dump_row(rows[i], i)));
    }
    out
}

/// The character a dump shows for a pixel.
pub open spec fn dump_char(p: Pixel) -> Seq<char> {
    match p {
        Pixel::Empty => seq!['.'],
        Pixel::Highlighter => seq!['9'],
        _ => seq!['5'],
    }
}

/// Whether a dump can show the pixel: empty, highlighted or rail.
pub open spec fn dumpable(p: Pixel) -> bool {
    p == Pixel::Empty || p == Pixel::Highlighter || p == Pixel::Rail
}

/// Cells of a surface dump: one row of `d` cells per row of pixels.
pub open spec fn surface_cells(pixels: Seq<Pixel>, d: int) -> Seq<Seq<Seq<char>>> {
    Seq::new(d as nat, |k: int| Seq::new(d as nat, |j: int| dump_char(pixels[k * d + j])))
}

fn dump_cell(p: Pixel) -> (s: String)
    requires
        dumpable(p),
    ensures
        s@ == dump_char(p),
{
    proof {
        reveal_strlit(".");
        reveal_strlit("9");
        reveal_strlit("5");
    }
    match p {
        Pixel::Empty => String::from_str("."),
        Pixel::Highlighter => String::from_str("9"),
        _ => String::from_str("5"),
    }
}

/// Text dump of a surface holding only empty, highlighted and rail pixels.
pub fn format_surface_dump(surface: &VSurface) -> (s: String)
    requires
        surface.wf(),
        surface.spec_radius() > 0,
        forall|i: int| 0 <= i < surface.spec_pixels().len() ==> dumpable(#[trigger] surface.spec_pixels()[i]),
    ensures
        s@ == dump_text(surface_cells(surface.spec_pixels(), 2 * surface.spec_radius())),
{
    let pixels = surface.dump_pixels_xy();
    let len = pixels.len();
    let d64 = surface.get_diameter();
    proof {
        assert(d64 * d64 == 4 * surface.spec_radius() * surface.spec_radius()) by (nonlinear_arith)
            requires d64 == 2 * surface.spec_radius();
        assert(d64 <= d64 * d64) by (nonlinear_arith)
            requires d64 >= 1;
    }
    let d = d64 as usize;
    let ghost cells = surface_cells(surface.spec_pixels(), d as int);
    let mut actual: Vec<Vec<String>> = Vec::new();
    let mut k: usize = 0;
    while k < d
        invariant
            k <= d,
            d * d == pixels@.len(),
            len == pixels@.len(),
            pixels@ == surface.spec_pixels(),
            forall|i: int| 0 <= i < pixels@.len() ==> dumpable(#[trigger] pixels@[i]),
            cells == surface_cells(pixels@, d as int),
            actual@.len() == k,
            forall|j: int| 0 <= j < k ==> strings_view(#[trigger] actual@[j]@) == cells[j],
        decreases d - k,
    {
        let mut row: Vec<String> = Vec::new();
        let mut j: usize = 0;
        proof {
            assert forall|m: int| 0 <= m < d implies 0 <= #[trigger] (k * d + m) < d * d by {
                assert(0 <= k * d + m < d * d) by (nonlinear_arith)
                    requires k < d, 0 <= m < d;
            }
        }
        while j < d
            invariant
                j <= d,
                k < d,
                d * d == pixels@.len(),
                len == pixels@.len(),
                forall|i: int| 0 <= i < pixels@.len() ==> dumpable(#[trigger] pixels@[i]),
                row@.len() == j,
                forall|m: int| 0 <= m < j ==> (#[trigger] row@[m])@ == dump_char(pixels@[k * d + m]),
                forall|m: int| 0 <= m < d ==> 0 <= #[trigger] (k * d + m) < d * d,
            decreases d - j,
        {
            proof {
                assert(k * d + j < d * d) by (nonlinear_arith)
                    requires k < d, j < d;
            }
            let cell = dump_cell(pixels[k * d + j]);
            row.push(cell);
            j = j + 1;
        }
        proof {
            assert(strings_view(row@) =~= cells[k as int]);
        }
        actual.push(row);
        k = k + 1;
    }
    proof {
        assert(grid_view(actual@) =~= cells);
    }
    format_dump(actual.as_slice())
}

/// The straight rails of a line: one at each of the rail positions `start`
/// up to, not including, `end` ahead of the rail.
pub open spec fn rail_line_commands(r: Rail, start: int, end: int) -> Seq<CommandView> {
    Seq::new((end - start) as nat, |k: int| straight_rail(half_at(micro_point(r.endpoint, r.direction, 2 * (start + k)), 0, 0), r.direction))
}

impl Rail {
    /// The command that builds a straight rail at this rail's endpoint.
    pub fn to_facto_entity(&self, result: &mut Vec<BoxedLuaCommand>)
        ensures
            commands_view(final(result)@) == commands_view(old(result)@).push(
                straight_rail(half_at(self.endpoint, 0, 0), self.direction)),
    {
        result.push(FacSurfaceCreateEntity::new_rail_straight(self.endpoint.to_f32(), self.direction).into_boxed());
        proof {
            assert(commands_view(result@) =~= commands_view(old(result)@).push(
                straight_rail(half_at(self.endpoint, 0, 0), self.direction)));
        }
    }

    /// The commands of a line of straight rails ahead of this one.
    pub fn to_facto_entities_line(&self, result: &mut Vec<BoxedLuaCommand>, start: u32, end: u32)
        requires
            start <= end,
            2 * end <= i32::MAX,
            micro_fits(self.endpoint, self.direction, 2 * end),
        ensures
            commands_view(final(result)@) == commands_view(old(result)@) + rail_line_commands(*self, start as int, end as int),
    {
        let mut i: u32 = start;
        while i < end
            invariant
                start <= i <= end,
                2 * end <= i32::MAX,
                micro_fits(self.endpoint, self.direction, 2 * end),
                commands_view(result@) == commands_view(old(result)@) + rail_line_commands(*self, start as int, i as int),
            decreases end - i,
        {
            proof {
                lemma_fits_between(self.endpoint, self.direction, 2 * i, 2 * end);
                assert(micro_fits(self.endpoint, self.direction, 0)) by {
                    lemma_fits_between(self.endpoint, self.direction, 0, 0);
                }
            }
            let next = self.move_forward_single_num(i);
            next.to_facto_entity(result);
            proof {
                assert(rail_line_commands(*self, start as int, i + 1) =~=
                    rail_line_commands(*self, start as int, i as int).push(
                        straight_rail(half_at(next.endpoint, 0, 0), next.direction)));
            }
            i = i + 1;
        }
    }
}

} // verus!
