//! How Factorio turns rails by 90 degrees: single turns, dual turns, and
//! the tiles a dual turn leaves free.

use vstd::prelude::*;
use crate::admiral::lua_command::{BoxedLuaCommand, CommandView, commands_view};
use crate::admiral::lua_command::fac_surface_create_entity::{FacSurfaceCreateEntity, FactoDirection, ParamView, entity_spec};
use crate::surface::direction::RailDirection;
use crate::surface::vpoint::{VPoint, HalfPoint, is_odd_position};

verus! {

/// Cells in a 16x16 grid.
pub const GRID_16X16_SIZE: usize = 256;

/// A 16x16 grid of flags, row by row.
pub struct StaticBitGrid {
    pub inner: [bool; GRID_16X16_SIZE],
}

impl StaticBitGrid {
    pub fn new(inner: [bool; GRID_16X16_SIZE]) -> (r: Self)
        ensures
            r.inner@ == inner@,
    {
        StaticBitGrid { inner }
    }

    /// The flag at column `x`, row `y`.
    pub fn get(&self, x: usize, y: usize) -> (r: bool)
        requires
            x < 16,
            y < 16,
        ensures
            r == self.inner@[16 * y + x],
    {
        self.inner[16 * y + x]
    }

    pub fn into_inner(self) -> (r: [bool; GRID_16X16_SIZE])
        ensures
            r@ == self.inner@,
    {
        self.inner
    }
}

/// Half-tile position of the tile at `p` moved by `(dx, dy)`.
pub open spec fn half_at(p: VPoint, dx: int, dy: int) -> HalfPoint {
    HalfPoint { x2: (2 * (p.x + dx)) as i64, y2: (2 * (p.y + dy)) as i64 }
}

/// Whether moving by up to `m` tiles right and down stays in the `i32` range.
pub open spec fn fits_offset(p: VPoint, m: int) -> bool {
    p.x + m <= i32::MAX && p.y + m <= i32::MAX
}

/// A curved rail facing `d`, as a command.
pub open spec fn curved(p: HalfPoint, d: FactoDirection) -> CommandView {
    CommandView::CreateEntity(entity_spec("curved-rail"@, p, seq![ParamView::DirectionFacto(d)], Seq::empty()))
}

/// A straight rail facing `d`, as a command.
pub open spec fn straight_facto(p: HalfPoint, d: FactoDirection) -> CommandView {
    CommandView::CreateEntity(entity_spec("straight-rail"@, p, seq![ParamView::DirectionFacto(d)], Seq::empty()))
}

/// A straight rail running `d`, as a command.
pub open spec fn straight_rail(p: HalfPoint, d: RailDirection) -> CommandView {
    CommandView::CreateEntity(entity_spec("straight-rail"@, p, seq![ParamView::Direction(d)], Seq::empty()))
}

/// The three rails of a north turn from `start`.
pub open spec fn rail_degrees_north_spec(start: VPoint) -> Seq<CommandView> {
    seq![
        curved(half_at(start, 9, 7), FactoDirection::North),
        straight_facto(half_at(start, 6, 4), FactoDirection::NorthEast),
        curved(half_at(start, 3, 1), FactoDirection::SouthEast),
    ]
}

/// The three rails of a south turn from `start`.
pub open spec fn rail_degrees_south_spec(start: VPoint) -> Seq<CommandView> {
    seq![
        curved(half_at(start, 1, 3), FactoDirection::South),
        straight_facto(half_at(start, 4, 6), FactoDirection::SouthWest),
        curved(half_at(start, 7, 9), FactoDirection::NorthWest),
    ]
}

/// The three rails of a west turn from `start`.
pub open spec fn rail_degrees_west_spec(start: VPoint) -> Seq<CommandView> {
    seq![
        curved(half_at(start, 7, 1), FactoDirection::West),
        straight_facto(half_at(start, 4, 4), FactoDirection::NorthWest),
        curved(half_at(start, 1, 7), FactoDirection::NorthEast),
    ]
}

/// The three rails of an east turn from `start`.
pub open spec fn rail_degrees_east_spec(start: VPoint) -> Seq<CommandView> {
    seq![
        curved(half_at(start, 3, 9), FactoDirection::East),
        straight_facto(half_at(start, 6, 6), FactoDirection::SouthEast),
        curved(half_at(start, 9, 3), FactoDirection::SouthWest),
    ]
}

fn curved_at(start: VPoint, dx: i32, dy: i32, d: FactoDirection) -> (r: BoxedLuaCommand)
    requires
        0 <= dx <= 9,
        0 <= dy <= 9,
        fits_offset(start, 9),
    ensures
        r@ == curved(half_at(start, dx as int, dy as int), d),
{
    FacSurfaceCreateEntity::new_rail_curved_facto(start.move_xy(dx, dy).to_f32(), d).into_boxed()
}

fn straight_at(start: VPoint, dx: i32, dy: i32, d: FactoDirection) -> (r: BoxedLuaCommand)
    requires
        0 <= dx <= 9,
        0 <= dy <= 9,
        fits_offset(start, 9),
    ensures
        r@ == straight_facto(half_at(start, dx as int, dy as int), d),
{
    FacSurfaceCreateEntity::new_rail_straight_facto(start.move_xy(dx, dy).to_f32(), d).into_boxed()
}

fn three(a: BoxedLuaCommand, b: BoxedLuaCommand, c: BoxedLuaCommand) -> (r: Vec<BoxedLuaCommand>)
    ensures
        commands_view(r@) == seq![a@, b@, c@],
{
    let r = vec![a, b, c];
    proof { assert(commands_view(r@) =~= seq![a@, b@, c@]); }
    r
}

/// Rails of a 90 degree turn ending north. `start` must have odd coordinates.
pub fn rail_degrees_north(start: VPoint) -> (r: Vec<BoxedLuaCommand>)
    requires
        is_odd_position(start),
        fits_offset(start, 9),
    ensures
        commands_view(r@) == rail_degrees_north_spec(start),
{
    three(
        curved_at(start, 9, 7, FactoDirection::North),
        straight_at(start, 6, 4, FactoDirection::NorthEast),
        curved_at(start, 3, 1, FactoDirection::SouthEast),
    )
}

/// Rails of a 90 degree turn ending south. `start` must have odd coordinates.
pub fn rail_degrees_south(start: VPoint) -> (r: Vec<BoxedLuaCommand>)
    requires
        is_odd_position(start),
        fits_offset(start, 9),
    ensures
        commands_view(r@) == rail_degrees_south_spec(start),
{
    three(
        curved_at(start, 1, 3, FactoDirection::South),
        straight_at(start, 4, 6, FactoDirection::SouthWest),
        curved_at(start, 7, 9, FactoDirection::NorthWest),
    )
}

/// Rails of a 90 degree turn ending west. `start` must have odd coordinates.
pub fn rail_degrees_west(start: VPoint) -> (r: Vec<BoxedLuaCommand>)
    requires
        is_odd_position(start),
        fits_offset(start, 9),
    ensures
        commands_view(r@) == rail_degrees_west_spec(start),
{
    three(
        curved_at(start, 7, 1, FactoDirection::West),
        straight_at(start, 4, 4, FactoDirection::NorthWest),
        curved_at(start, 1, 7, FactoDirection::NorthEast),
    )
}

/// Rails of a 90 degree turn ending east. `start` must have odd coordinates.
pub fn rail_degrees_east(start: VPoint) -> (r: Vec<BoxedLuaCommand>)
    requires
        is_odd_position(start),
        fits_offset(start, 9),
    ensures
        commands_view(r@) == rail_degrees_east_spec(start),
{
    three(
        curved_at(start, 3, 9, FactoDirection::East),
        straight_at(start, 6, 6, FactoDirection::SouthEast),
        curved_at(start, 9, 3, FactoDirection::SouthWest),
    )
}

/// A straight rail at `point` running `direction`.
pub fn add_rail(point: VPoint, direction: RailDirection, commands: &mut Vec<BoxedLuaCommand>)
    ensures
        commands_view(final(commands)@) == commands_view(old(commands)@).push(
            straight_rail(half_at(point, 0, 0), direction),
        ),
{
    commands.push(FacSurfaceCreateEntity::new_rail_straight(point.to_f32(), direction).into_boxed());
    proof {
        assert(commands_view(commands@) =~= commands_view(old(commands)@).push(
            straight_rail(half_at(point, 0, 0), direction),
        ));
    }
}

fn append_all(commands: &mut Vec<BoxedLuaCommand>, more: Vec<BoxedLuaCommand>)
    ensures
        commands_view(final(commands)@) == commands_view(old(commands)@) + commands_view(more@),
{
    let ghost added = more@;
    let mut more = more;
    commands.append(&mut more);
    proof {
        assert(commands_view(commands@) =~= commands_view(old(commands)@) + commands_view(added));
    }
}

/// A dual north turn: both turns, then the outer straight rails.
pub open spec fn dual_rail_north_spec(c: VPoint) -> Seq<CommandView> {
    rail_degrees_north_spec(VPoint { x: (c.x + 4) as i32, ..c }) + rail_degrees_north_spec(VPoint { y: (c.y + 4) as i32, ..c })
        + seq![
        straight_rail(half_at(c, 0, 0), RailDirection::Left),
        straight_rail(half_at(c, 2, 0), RailDirection::Left),
        straight_rail(half_at(c, 14, 12), RailDirection::Down),
        straight_rail(half_at(c, 14, 14), RailDirection::Down),
    ]
}

/// A dual south turn: both turns, then the outer straight rails.
pub open spec fn dual_rail_south_spec(c: VPoint) -> Seq<CommandView> {
    rail_degrees_south_spec(VPoint { x: (c.x + 4) as i32, ..c }) + rail_degrees_south_spec(VPoint { y: (c.y + 4) as i32, ..c })
        + seq![
        straight_rail(half_at(c, 0, 0), RailDirection::Down),
        straight_rail(half_at(c, 0, 2), RailDirection::Down),
        straight_rail(half_at(c, 12, 14), RailDirection::Left),
        straight_rail(half_at(c, 14, 14), RailDirection::Left),
    ]
}

/// A dual east turn: both turns, then the outer straight rails.
pub open spec fn dual_rail_east_spec(c: VPoint) -> Seq<CommandView> {
    rail_degrees_east_spec(VPoint { x: (c.x + 4) as i32, y: (c.y + 4) as i32 }) + rail_degrees_east_spec(c)
        + seq![
        straight_rail(half_at(c, 14, 0), RailDirection::Down),
        straight_rail(half_at(c, 14, 2), RailDirection::Down),
        straight_rail(half_at(c, 0, 14), RailDirection::Left),
        straight_rail(half_at(c, 2, 14), RailDirection::Left),
    ]
}

/// A dual west turn: both turns, then the outer straight rails.
pub open spec fn dual_rail_west_spec(c: VPoint) -> Seq<CommandView> {
    rail_degrees_west_spec(VPoint { x: (c.x + 4) as i32, y: (c.y + 4) as i32 }) + rail_degrees_west_spec(c)
        + seq![
        straight_rail(half_at(c, 14, 0), RailDirection::Left),
        straight_rail(half_at(c, 12, 0), RailDirection::Left),
        straight_rail(half_at(c, 0, 12), RailDirection::Down),
        straight_rail(half_at(c, 0, 14), RailDirection::Down),
    ]
}

/// Whether the command builds a straight rail.
pub open spec fn is_straight_rail(c: CommandView) -> bool {
    c matches CommandView::CreateEntity(e) && e.name == "straight-rail"@ && e.params.len() == 1
        && e.params[0] is Direction
}

/// Half-tile position of an entity the command builds.
pub open spec fn command_position(c: CommandView) -> HalfPoint {
    match c {
        CommandView::CreateEntity(e) => e.position,
        _ => HalfPoint { x2: 0, y2: 0 },
    }
}

/// Direction of a rail the command builds.
pub open spec fn command_direction(c: CommandView) -> RailDirection {
    match c {
        CommandView::CreateEntity(e) => match e.params[0] {
            ParamView::Direction(d) => d,
            _ => RailDirection::Up,
        },
        _ => RailDirection::Up,
    }
}

/// Whether two straight rails run the same way and follow each other on
/// one line: two tiles apart along their direction, level across it.
pub open spec fn rails_in_line(a: CommandView, b: CommandView) -> bool {
    let pa = command_position(a);
    let pb = command_position(b);
    let d = command_direction(a);
    &&& is_straight_rail(a) && is_straight_rail(b)
    &&& command_direction(b) == d
    &&& (d == RailDirection::Up || d == RailDirection::Down) ==> pa.x2 == pb.x2 && (pa.y2 - pb.y2 == 4 || pb.y2 - pa.y2 == 4)
    &&& (d == RailDirection::Left || d == RailDirection::Right) ==> pa.y2 == pb.y2 && (pa.x2 - pb.x2 == 4 || pb.x2 - pa.x2 == 4)
}

/// Whether the half-tile position lies in the 15 by 15 tile square whose
/// top-left tile is `c`.
pub open spec fn in_turn_square(c: VPoint, p: HalfPoint) -> bool {
    2 * c.x <= p.x2 <= 2 * (c.x + 14) && 2 * c.y <= p.y2 <= 2 * (c.y + 14)
}

/// Whether the half-tile position is a corner tile of that square.
pub open spec fn at_turn_corner(c: VPoint, p: HalfPoint) -> bool {
    (p.x2 == 2 * c.x || p.x2 == 2 * (c.x + 14)) && (p.y2 == 2 * c.y || p.y2 == 2 * (c.y + 14))
}

/// Whether a pair of outer rails lies inside the turn's square, one of them
/// on a corner of it.
pub open spec fn pair_at_corner(c: VPoint, a: CommandView, b: CommandView) -> bool {
    &&& in_turn_square(c, command_position(a)) && in_turn_square(c, command_position(b))
    &&& at_turn_corner(c, command_position(a)) || at_turn_corner(c, command_position(b))
}

/// The outer straight rails at each end of a dual turn, in all four
/// directions, come in pairs that run the same way on one line, so the outer
/// track has no gap and no kink; each pair lies inside the turn's square
/// with one rail on a corner of it.
pub proof fn law_dual_outer_rails_in_line(c: VPoint)
    requires
        fits_offset(c, 14),
    ensures
        rails_in_line(dual_rail_north_spec(c)[6], dual_rail_north_spec(c)[7]),
        rails_in_line(dual_rail_north_spec(c)[8], dual_rail_north_spec(c)[9]),
        rails_in_line(dual_rail_south_spec(c)[6], dual_rail_south_spec(c)[7]),
        rails_in_line(dual_rail_south_spec(c)[8], dual_rail_south_spec(c)[9]),
        rails_in_line(dual_rail_east_spec(c)[6], dual_rail_east_spec(c)[7]),
        rails_in_line(dual_rail_east_spec(c)[8], dual_rail_east_spec(c)[9]),
        rails_in_line(dual_rail_west_spec(c)[6], dual_rail_west_spec(c)[7]),
        rails_in_line(dual_rail_west_spec(c)[8], dual_rail_west_spec(c)[9]),
        pair_at_corner(c, dual_rail_north_spec(c)[6], dual_rail_north_spec(c)[7]),
        pair_at_corner(c, dual_rail_north_spec(c)[8], dual_rail_north_spec(c)[9]),
        pair_at_corner(c, dual_rail_south_spec(c)[6], dual_rail_south_spec(c)[7]),
        pair_at_corner(c, dual_rail_south_spec(c)[8], dual_rail_south_spec(c)[9]),
        pair_at_corner(c, dual_rail_east_spec(c)[6], dual_rail_east_spec(c)[7]),
        pair_at_corner(c, dual_rail_east_spec(c)[8], dual_rail_east_spec(c)[9]),
        pair_at_corner(c, dual_rail_west_spec(c)[6], dual_rail_west_spec(c)[7]),
        pair_at_corner(c, dual_rail_west_spec(c)[8], dual_rail_west_spec(c)[9]),
        dual_rail_north_spec(c).len() == 10,
        dual_rail_south_spec(c).len() == 10,
        dual_rail_east_spec(c).len() == 10,
        dual_rail_west_spec(c).len() == 10,
{
    reveal_strlit("straight-rail");
}

/// Append a dual turn ending north. The corner must have odd coordinates.
pub fn dual_rail_north(top_right_corner: VPoint, commands: &mut Vec<BoxedLuaCommand>)
    requires
        is_odd_position(top_right_corner),
        fits_offset(top_right_corner, 14),
    ensures
        commands_view(final(commands)@) == commands_view(old(commands)@) + dual_rail_north_spec(top_right_corner),
{
    let c = top_right_corner;
    append_all(commands, rail_degrees_north(c.move_xy(4, 0)));
    append_all(commands, rail_degrees_north(c.move_xy(0, 4)));
    // outer top
    add_rail(c, RailDirection::Left, commands);
    add_rail(c.move_xy(2, 0), RailDirection::Left, commands);
    // outer bottom
    add_rail(c.move_xy(14, 12), RailDirection::Down, commands);
    add_rail(c.move_xy(14, 14), RailDirection::Down, commands);
    proof {
        assert(commands_view(commands@) =~= commands_view(old(commands)@) + dual_rail_north_spec(c));
    }
}

/// Append a dual turn ending south. The corner must have odd coordinates.
pub fn dual_rail_south(top_right_corner: VPoint, commands: &mut Vec<BoxedLuaCommand>)
    requires
        is_odd_position(top_right_corner),
        fits_offset(top_right_corner, 14),
    ensures
        commands_view(final(commands)@) == commands_view(old(commands)@) + dual_rail_south_spec(top_right_corner),
{
    let c = top_right_corner;
    append_all(commands, rail_degrees_south(c.move_xy(4, 0)));
    append_all(commands, rail_degrees_south(c.move_xy(0, 4)));
    // outer top
    add_rail(c, RailDirection::Down, commands);
    add_rail(c.move_xy(0, 2), RailDirection::Down, commands);
    // outer bottom
    add_rail(c.move_xy(12, 14), RailDirection::Left, commands);
    add_rail(c.move_xy(14, 14), RailDirection::Left, commands);
    proof {
        assert(commands_view(commands@) =~= commands_view(old(commands)@) + dual_rail_south_spec(c));
    }
}

/// Append a dual turn ending east. The corner must have odd coordinates.
pub fn dual_rail_east(top_right_corner: VPoint, commands: &mut Vec<BoxedLuaCommand>)
    requires
        is_odd_position(top_right_corner),
        fits_offset(top_right_corner, 14),
    ensures
        commands_view(final(commands)@) == commands_view(old(commands)@) + dual_rail_east_spec(top_right_corner),
{
    let c = top_right_corner;
    append_all(commands, rail_degrees_east(c.move_xy(4, 4)));
    append_all(commands, rail_degrees_east(c.move_xy(0, 0)));
    // outer top
    add_rail(c.move_xy(14, 0), RailDirection::Down, commands);
    add_rail(c.move_xy(14, 2), RailDirection::Down, commands);
    // outer bottom
    add_rail(c.move_xy(0, 14), RailDirection::Left, commands);
    add_rail(c.move_xy(2, 14), RailDirection::Left, commands);
    proof {
        assert(commands_view(commands@) =~= commands_view(old(commands)@) + dual_rail_east_spec(c));
    }
}

/// Append a dual turn ending west. The corner must have odd coordinates.
pub fn dual_rail_west(top_right_corner: VPoint, commands: &mut Vec<BoxedLuaCommand>)
    requires
        is_odd_position(top_right_corner),
        fits_offset(top_right_corner, 14),
    ensures
        commands_view(final(commands)@) == commands_view(old(commands)@) + dual_rail_west_spec(top_right_corner),
{
    let c = top_right_corner;
    append_all(commands, rail_degrees_west(c.move_xy(4, 4)));
    append_all(commands, rail_degrees_west(c.move_xy(0, 0)));
    // outer top
    add_rail(c.move_xy(14, 0), RailDirection::Left, commands);
    add_rail(c.move_xy(12, 0), RailDirection::Left, commands);
    // outer bottom
    add_rail(c.move_xy(0, 12), RailDirection::Down, commands);
    add_rail(c.move_xy(0, 14), RailDirection::Down, commands);
    proof {
        assert(commands_view(commands@) =~= commands_view(old(commands)@) + dual_rail_west_spec(c));
    }
}

/// Column and row of a cell index of a 16x16 grid.
pub fn dual_rail_empty_index_to_xy(grid: &[bool; GRID_16X16_SIZE], index: usize) -> (r: VPoint)
    requires
        index < GRID_16X16_SIZE,
    ensures
        r.x == index % 16,
        r.y == index / 16,
{
    let diameter_component = index - (index % 16);
    let y = diameter_component / 16;
    let x = index - diameter_component;
    VPoint::new(x as i32, y as i32)
}

/// Cells of the 16x16 square that stay empty around a dual north turn, row by row.
pub open spec fn dual_rail_north_empty_cells() -> Seq<bool> {
    seq![
        false, false, false, false, false, false, false, false, true, true, true, true, true, true, true, true,
        false, false, false, false, false, false, false, false, false, false, true, true, true, true, true, true,
        true, true, true, true, true, true, true, false, false, false, false, true, true, true, true, true,
        true, true, true, true, true, true, true, true, false, false, false, false, true, true, true, true,
        false, false, false, false, true, true, true, true, true, true, false, false, false, true, true, true,
        false, false, false, false, false, false, true, true, true, true, true, false, false, false, true, true,
        true, true, true, false, false, false, false, true, true, true, true, true, false, false, false, true,
        true, true, true, true, false, false, false, false, true, true, true, true, false, false, false, true,
        true, true, true, true, true, true, false, false, false, true, true, true, true, false, false, false,
        true, true, true, true, true, true, true, false, false, false, true, true, true, true, false, false,
        true, true, true, true, true, true, true, true, false, false, false, true, true, true, false, false,
        true, true, true, true, true, true, true, true, false, false, false, true, true, true, false, false,
        true, true, true, true, true, true, true, true, true, false, false, false, true, true, false, false,
        true, true, true, true, true, true, true, true, true, true, false, false, true, true, false, false,
        true, true, true, true, true, true, true, true, true, true, false, false, true, true, false, false,
        true, true, true, true, true, true, true, true, true, true, false, false, true, true, false, false,
    ]
}

/// Which cells of the 16x16 square stay empty around a dual north turn.
pub fn dual_rail_north_empty() -> (r: StaticBitGrid)
    ensures
        r.inner@ == dual_rail_north_empty_cells(),
{
    let inner: [bool; GRID_16X16_SIZE] = [
        false, false, false, false, false, false, false, false, true, true, true, true, true, true, true, true,
        false, false, false, false, false, false, false, false, false, false, true, true, true, true, true, true,
        true, true, true, true, true, true, true, false, false, false, false, true, true, true, true, true,
        true, true, true, true, true, true, true, true, false, false, false, false, true, true, true, true,
        false, false, false, false, true, true, true, true, true, true, false, false, false, true, true, true,
        false, false, false, false, false, false, true, true, true, true, true, false, false, false, true, true,
        true, true, true, false, false, false, false, true, true, true, true, true, false, false, false, true,
        true, true, true, true, false, false, false, false, true, true, true, true, false, false, false, true,
        true, true, true, true, true, true, false, false, false, true, true, true, true, false, false, false,
        true, true, true, true, true, true, true, false, false, false, true, true, true, true, false, false,
        true, true, true, true, true, true, true, true, false, false, false, true, true, true, false, false,
        true, true, true, true, true, true, true, true, false, false, false, true, true, true, false, false,
        true, true, true, true, true, true, true, true, true, false, false, false, true, true, false, false,
        true, true, true, true, true, true, true, true, true, true, false, false, true, true, false, false,
        true, true, true, true, true, true, true, true, true, true, false, false, true, true, false, false,
        true, true, true, true, true, true, true, true, true, true, false, false, true, true, false, false,
    ];
    proof {
        assert(inner@ =~= dual_rail_north_empty_cells());
    }
    StaticBitGrid::new(inner)
}

/// Cells of the 16x16 square that stay empty around a dual south turn, row by row.
pub open spec fn dual_rail_south_empty_cells() -> Seq<bool> {
    seq![
        false, false, true, true, false, false, true, true, true, true, true, true, true, true, true, true,
        false, false, true, true, false, false, true, true, true, true, true, true, true, true, true, true,
        false, false, true, true, false, false, true, true, true, true, true, true, true, true, true, true,
        false, false, true, true, false, false, false, true, true, true, true, true, true, true, true, true,
        false, false, true, true, true, false, false, false, true, true, true, true, true, true, true, true,
        false, false, true, true, true, false, false, false, true, true, true, true, true, true, true, true,
        false, false, true, true, true, true, false, false, false, true, true, true, true, true, true, true,
        false, false, false, true, true, true, true, false, false, false, true, true, true, true, true, true,
        true, false, false, false, true, true, true, true, false, false, false, false, true, true, true, true,
        true, false, false, false, true, true, true, true, true, false, false, false, false, true, true, true,
        true, true, false, false, false, true, true, true, true, true, false, false, false, false, false, false,
        true, true, true, false, false, false, true, true, true, true, true, true, false, false, false, false,
        true, true, true, true, false, false, false, false, true, true, true, true, true, true, true, true,
        true, true, true, true, true, false, false, false, false, true, true, true, true, true, true, true,
        true, true, true, true, true, true, false, false, false, false, false, false, false, false, false, false,
        true, true, true, true, true, true, true, true, false, false, false, false, false, false, false, false,
    ]
}

/// Which cells of the 16x16 square stay empty around a dual south turn.
pub fn dual_rail_south_empty() -> (r: StaticBitGrid)
    ensures
        r.inner@ == dual_rail_south_empty_cells(),
{
    let inner: [bool; GRID_16X16_SIZE] = [
        false, false, true, true, false, false, true, true, true, true, true, true, true, true, true, true,
        false, false, true, true, false, false, true, true, true, true, true, true, true, true, true, true,
        false, false, true, true, false, false, true, true, true, true, true, true, true, true, true, true,
        false, false, true, true, false, false, false, true, true, true, true, true, true, true, true, true,
        false, false, true, true, true, false, false, false, true, true, true, true, true, true, true, true,
        false, false, true, true, true, false, false, false, true, true, true, true, true, true, true, true,
        false, false, true, true, true, true, false, false, false, true, true, true, true, true, true, true,
        false, false, false, true, true, true, true, false, false, false, true, true, true, true, true, true,
        true, false, false, false, true, true, true, true, false, false, false, false, true, true, true, true,
        true, false, false, false, true, true, true, true, true, false, false, false, false, true, true, true,
        true, true, false, false, false, true, true, true, true, true, false, false, false, false, false, false,
        true, true, true, false, false, false, true, true, true, true, true, true, false, false, false, false,
        true, true, true, true, false, false, false, false, true, true, true, true, true, true, true, true,
        true, true, true, true, true, false, false, false, false, true, true, true, true, true, true, true,
        true, true, true, true, true, true, false, false, false, false, false, false, false, false, false, false,
        true, true, true, true, true, true, true, true, false, false, false, false, false, false, false, false,
    ];
    proof {
        assert(inner@ =~= dual_rail_south_empty_cells());
    }
    StaticBitGrid::new(inner)
}

/// Cells of the 16x16 square that stay empty around a dual east turn, row by row.
pub open spec fn dual_rail_east_empty_cells() -> Seq<bool> {
    seq![
        true, true, true, true, true, true, true, true, true, true, false, false, true, true, false, false,
        true, true, true, true, true, true, true, true, true, true, false, false, true, true, false, false,
        true, true, true, true, true, true, true, true, true, true, false, false, true, true, false, false,
        true, true, true, true, true, true, true, true, true, false, false, false, true, true, false, false,
        true, true, true, true, true, true, true, true, false, false, false, true, true, true, false, false,
        true, true, true, true, true, true, true, true, false, false, false, true, true, true, false, false,
        true, true, true, true, true, true, true, false, false, false, true, true, true, true, false, false,
        true, true, true, true, true, true, false, false, false, true, true, true, true, false, false, false,
        true, true, true, true, false, false, false, false, true, true, true, true, false, false, false, true,
        true, true, true, false, false, false, false, true, true, true, true, true, false, false, false, true,
        false, false, false, false, false, false, true, true, true, true, true, false, false, false, true, true,
        false, false, false, false, true, true, true, true, true, true, false, false, false, true, true, true,
        true, true, true, true, true, true, true, true, false, false, false, false, true, true, true, true,
        true, true, true, true, true, true, true, false, false, false, false, true, true, true, true, true,
        false, false, false, false, false, false, false, false, false, false, true, true, true, true, true, true,
        false, false, false, false, false, false, false, false, true, true, true, true, true, true, true, true,
    ]
}

/// Which cells of the 16x16 square stay empty around a dual east turn.
pub fn dual_rail_east_empty() -> (r: StaticBitGrid)
    ensures
        r.inner@ == dual_rail_east_empty_cells(),
{
    let inner: [bool; GRID_16X16_SIZE] = [
        true, true, true, true, true, true, true, true, true, true, false, false, true, true, false, false,
        true, true, true, true, true, true, true, true, true, true, false, false, true, true, false, false,
        true, true, true, true, true, true, true, true, true, true, false, false, true, true, false, false,
        true, true, true, true, true, true, true, true, true, false, false, false, true, true, false, false,
        true, true, true, true, true, true, true, true, false, false, false, true, true, true, false, false,
        true, true, true, true, true, true, true, true, false, false, false, true, true, true, false, false,
        true, true, true, true, true, true, true, false, false, false, true, true, true, true, false, false,
        true, true, true, true, true, true, false, false, false, true, true, true, true, false, false, false,
        true, true, true, true, false, false, false, false, true, true, true, true, false, false, false, true,
        true, true, true, false, false, false, false, true, true, true, true, true, false, false, false, true,
        false, false, false, false, false, false, true, true, true, true, true, false, false, false, true, true,
        false, false, false, false, true, true, true, true, true, true, false, false, false, true, true, true,
        true, true, true, true, true, true, true, true, false, false, false, false, true, true, true, true,
        true, true, true, true, true, true, true, false, false, false, false, true, true, true, true, true,
        false, false, false, false, false, false, false, false, false, false, true, true, true, true, true, true,
        false, false, false, false, false, false, false, false, true, true, true, true, true, true, true, true,
    ];
    proof {
        assert(inner@ =~= dual_rail_east_empty_cells());
    }
    StaticBitGrid::new(inner)
}

/// Cells of the 16x16 square that stay empty around a dual west turn, row by row.
pub open spec fn dual_rail_west_empty_cells() -> Seq<bool> {
    seq![
        true, true, true, true, true, true, true, true, false, false, false, false, false, false, false, false,
        true, true, true, true, true, true, false, false, false, false, false, false, false, false, false, false,
        true, true, true, true, true, false, false, false, false, true, true, true, true, true, true, true,
        true, true, true, true, false, false, false, false, true, true, true, true, true, true, true, true,
        true, true, true, false, false, false, true, true, true, true, true, true, false, false, false, false,
        true, true, false, false, false, true, true, true, true, true, false, false, false, false, false, false,
        true, false, false, false, true, true, true, true, true, false, false, false, false, true, true, true,
        true, false, false, false, true, true, true, true, false, false, false, false, true, true, true, true,
        false, false, false, true, true, true, true, false, false, false, true, true, true, true, true, true,
        false, false, true, true, true, true, false, false, false, true, true, true, true, true, true, true,
        false, false, true, true, true, false, false, false, true, true, true, true, true, true, true, true,
        false, false, true, true, true, false, false, false, true, true, true, true, true, true, true, true,
        false, false, true, true, false, false, false, true, true, true, true, true, true, true, true, true,
        false, false, true, true, false, false, true, true, true, true, true, true, true, true, true, true,
        false, false, true, true, false, false, true, true, true, true, true, true, true, true, true, true,
        false, false, true, true, false, false, true, true, true, true, true, true, true, true, true, true,
    ]
}

/// Which cells of the 16x16 square stay empty around a dual west turn.
pub fn dual_rail_west_empty() -> (r: StaticBitGrid)
    ensures
        r.inner@ == dual_rail_west_empty_cells(),
{
    let inner: [bool; GRID_16X16_SIZE] = [
        true, true, true, true, true, true, true, true, false, false, false, false, false, false, false, false,
        true, true, true, true, true, true, false, false, false, false, false, false, false, false, false, false,
        true, true, true, true, true, false, false, false, false, true, true, true, true, true, true, true,
        true, true, true, true, false, false, false, false, true, true, true, true, true, true, true, true,
        true, true, true, false, false, false, true, true, true, true, true, true, false, false, false, false,
        true, true, false, false, false, true, true, true, true, true, false, false, false, false, false, false,
        true, false, false, false, true, true, true, true, true, false, false, false, false, true, true, true,
        true, false, false, false, true, true, true, true, false, false, false, false, true, true, true, true,
        false, false, false, true, true, true, true, false, false, false, true, true, true, true, true, true,
        false, false, true, true, true, true, false, false, false, true, true, true, true, true, true, true,
        false, false, true, true, true, false, false, false, true, true, true, true, true, true, true, true,
        false, false, true, true, true, false, false, false, true, true, true, true, true, true, true, true,
        false, false, true, true, false, false, false, true, true, true, true, true, true, true, true, true,
        false, false, true, true, false, false, true, true, true, true, true, true, true, true, true, true,
        false, false, true, true, false, false, true, true, true, true, true, true, true, true, true, true,
        false, false, true, true, false, false, true, true, true, true, true, true, true, true, true, true,
    ];
    proof {
        assert(inner@ =~= dual_rail_west_empty_cells());
    }
    StaticBitGrid::new(inner)
}

} // verus!
