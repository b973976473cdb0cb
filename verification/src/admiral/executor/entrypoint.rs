//! The commands of the admiral's entry points. Sending them, and reading what
//! the game answers, is the caller's part.

use vstd::prelude::*;
use crate::admiral::lua_command::{BoxedLuaCommand, CommandView, commands_view};
use crate::admiral::lua_command::lua_batch::LuaBatchCommand;
use crate::admiral::lua_command::raw_lua::RawLuaCommand;
use crate::admiral::lua_command::scanner::BaseScanner;
use crate::admiral::generators::rail90::{
    rail_degrees_north, rail_degrees_south, rail_degrees_west, rail_degrees_east,
    rail_degrees_north_spec, rail_degrees_south_spec, rail_degrees_west_spec, rail_degrees_east_spec,
    dual_rail_north, dual_rail_south, dual_rail_east, dual_rail_west,
    dual_rail_north_spec, dual_rail_south_spec, dual_rail_east_spec, dual_rail_west_spec,
    StaticBitGrid, dual_rail_north_empty, dual_rail_south_empty, dual_rail_east_empty, dual_rail_west_empty,
    dual_rail_north_empty_cells, dual_rail_south_empty_cells, dual_rail_east_empty_cells, dual_rail_west_empty_cells,
};
use crate::admiral::lua_command::fac_surface_create_entity::{FacSurfaceCreateEntity, entity_spec};
use crate::surface::vpoint::{VPoint, HalfPoint, vpoint_at};
use crate::text::{int_decimal, format_i64};

verus! {

/// Tiles around the origin that the turn-area extractor scans and clears.
pub const TURN_AREA_WORK_RADIUS: u32 = 200;

/// Row of the chunk the turn-area extractor builds in.
pub const TURN_AREA_CHUNK_Y: i32 = -64;

/// The entity kinds an entry point clears from its work area.
pub open spec fn cleared_kinds() -> Seq<Seq<char>> {
    seq!["roboport"@, "large-electric-pole"@]
}

/// Names, as text.
pub open spec fn names_view(names: Seq<&'static str>) -> Seq<Seq<char>> {
    names.map_values(|n: &'static str| n@)
}

/// Clearing a work area: every entity of the named kinds within `radius`
/// tiles of the origin on both axes is destroyed. The game client sends it
/// as a filtered destroy.
pub struct FilteredDestroy {
    pub radius: u32,
    pub names: Vec<&'static str>,
}

/// What an entry point sends before its own commands: the chunks of the work
/// area are generated, then the area is cleared.
pub struct WorkAreaPrep {
    pub scan: BaseScanner,
    pub destroy: FilteredDestroy,
}

/// The preparation of a work area of `radius` tiles.
pub fn work_area_prep(radius: u32) -> (r: WorkAreaPrep)
    ensures
        r.scan.radius == radius,
        r.destroy.radius == radius,
        names_view(r.destroy.names@) == cleared_kinds(),
{
    let names: Vec<&'static str> = vec!["roboport", "large-electric-pole"];
    proof {
        reveal_strlit("roboport");
        reveal_strlit("large-electric-pole");
        assert(names_view(names@) =~= cleared_kinds());
    }
    WorkAreaPrep { scan: BaseScanner::new_radius(radius), destroy: FilteredDestroy { radius, names } }
}

/// The four single turns the turn viewer shows, 32 tiles apart, each
/// shifted by one tile onto the odd rail grid: south, west, north, east.
pub open spec fn turn_viewer_spec() -> Seq<Seq<CommandView>> {
    seq![
        rail_degrees_south_spec(vpoint_at(1, 1)),
        rail_degrees_west_spec(vpoint_at(33, 1)),
        rail_degrees_north_spec(vpoint_at(65, 1)),
        rail_degrees_east_spec(vpoint_at(97, 1)),
    ]
}

/// What the turn viewer sends: the preparation of its work area, 20 tiles
/// beyond the base's cleared resource square of `remove_resource_base_tiles`,
/// then one batch per turn, in order.
pub fn admiral_entrypoint_turn_viewer(remove_resource_base_tiles: u32) -> (r: (WorkAreaPrep, Vec<LuaBatchCommand>))
    requires
        remove_resource_base_tiles <= u32::MAX - 20,
    ensures
        r.0.scan.radius == remove_resource_base_tiles + 20,
        r.0.destroy.radius == remove_resource_base_tiles + 20,
        names_view(r.0.destroy.names@) == cleared_kinds(),
        r.1@.len() == 4,
        forall|i: int| 0 <= i < 4 ==> commands_view((#[trigger] r.1@[i]).commands@) == turn_viewer_spec()[i],
{
    let prep = work_area_prep(remove_resource_base_tiles + 20);
    let mut r: Vec<LuaBatchCommand> = Vec::new();
    r.push(LuaBatchCommand::new(rail_degrees_south(VPoint::new(1, 1))));
    r.push(LuaBatchCommand::new(rail_degrees_west(VPoint::new(33, 1))));
    r.push(LuaBatchCommand::new(rail_degrees_north(VPoint::new(65, 1))));
    r.push(LuaBatchCommand::new(rail_degrees_east(VPoint::new(97, 1))));
    (prep, r)
}

/// Lua that places a steel chest at `(x, y)` where the game lets it.
pub open spec fn chest_probe_lua(x: int, y: int) -> Seq<char> {
    let pos = int_decimal(x) + ","@ + int_decimal(y);
    "if game.surfaces[1].can_place_entity{ name=\"steel-chest\",position={ "@ + pos
        + " } } then game.surfaces[1].create_entity{ name=\"steel-chest\",position={ "@ + pos
        + " } }end"@
}

/// The probe number `k`: chunk `k / 256` of four, 32 tiles apart; within it
/// column `(k % 256) / 16` and row `k % 16` of the 16x16 square at row -64.
pub open spec fn chest_probe_at(k: int) -> CommandView {
    CommandView::Raw(chest_probe_lua(32 * (k / 256) + (k % 256) / 16, -64 + k % 16))
}

/// All probes of the four turn squares, chunk by chunk, column by column, row by row.
pub open spec fn chest_probes() -> Seq<CommandView> {
    Seq::new(1024, |k: int| chest_probe_at(k))
}

fn chest_probe(x: i32, y: i32) -> (r: RawLuaCommand)
    ensures
        r.lua@ == chest_probe_lua(x as int, y as int),
{
    let xs = format_i64(x as i64);
    let ys = format_i64(y as i64);
    let mut s = String::from_str("if game.surfaces[1].can_place_entity{ name=\"steel-chest\",position={ ");
    s.append(xs.as_str());
    s.append(",");
    s.append(ys.as_str());
    s.append(" } } then game.surfaces[1].create_entity{ name=\"steel-chest\",position={ ");
    s.append(xs.as_str());
    s.append(",");
    s.append(ys.as_str());
    s.append(" } }end");
    RawLuaCommand::new(s)
}

/// Append a probe chest for every tile of the four turn squares, so that the
/// chests the game placed show which tiles the turns leave free.
pub fn minified_bitgrid_probes(commands: &mut Vec<BoxedLuaCommand>)
    ensures
        commands_view(final(commands)@) == commands_view(old(commands)@) + chest_probes(),
{
    let mut k: usize = 0;
    while k < 1024
        invariant
            k <= 1024,
            commands_view(commands@) == commands_view(old(commands)@) + Seq::new(k as nat, |j: int| chest_probe_at(j)),
        decreases 1024 - k,
    {
        let x: i32 = (32 * (k / 256) + (k % 256) / 16) as i32;
        let y: i32 = -64 + (k % 16) as i32;
        let probe = chest_probe(x, y);
        let ghost before = commands_view(commands@);
        commands.push(probe.into_boxed());
        proof {
            assert(commands_view(commands@) =~= before.push(chest_probe_at(k as int)));
            assert(Seq::new((k + 1) as nat, |j: int| chest_probe_at(j))
                =~= Seq::new(k as nat, |j: int| chest_probe_at(j)).push(chest_probe_at(k as int)));
        }
        k = k + 1;
    }
    proof {
        assert(Seq::new(1024nat, |j: int| chest_probe_at(j)) =~= chest_probes());
    }
}

/// The commands of the turn-area extractor: the four dual turns side by side
/// in the chunk at row -64, each shifted by one tile onto the odd rail grid,
/// then a probe chest for every tile of their squares.
pub open spec fn turn_area_spec() -> Seq<CommandView> {
    dual_rail_north_spec(vpoint_at(1, -63)) + dual_rail_south_spec(vpoint_at(33, -63))
        + dual_rail_east_spec(vpoint_at(65, -63)) + dual_rail_west_spec(vpoint_at(97, -63))
        + chest_probes()
}

/// What the turn-area extractor sends: the preparation of its work area,
/// then its batch.
pub fn admiral_entrypoint_turn_area_extractor() -> (r: (WorkAreaPrep, LuaBatchCommand))
    ensures
        r.0.scan.radius == TURN_AREA_WORK_RADIUS,
        r.0.destroy.radius == TURN_AREA_WORK_RADIUS,
        names_view(r.0.destroy.names@) == cleared_kinds(),
        commands_view(r.1.commands@) == turn_area_spec(),
{
    let prep = work_area_prep(TURN_AREA_WORK_RADIUS);
    let mut commands: Vec<BoxedLuaCommand> = Vec::new();
    let row: i32 = TURN_AREA_CHUNK_Y + 1;
    dual_rail_north(VPoint::new(1, row), &mut commands);
    dual_rail_south(VPoint::new(33, row), &mut commands);
    dual_rail_east(VPoint::new(65, row), &mut commands);
    dual_rail_west(VPoint::new(97, row), &mut commands);
    minified_bitgrid_probes(&mut commands);
    proof {
        assert(commands_view(Seq::<BoxedLuaCommand>::empty()) =~= Seq::empty());
    }
    (prep, LuaBatchCommand::new(commands))
}

/// A steel chest at the whole tile `(x, y)`.
pub open spec fn kit_chest(x: int, y: int) -> CommandView {
    CommandView::CreateEntity(entity_spec("steel-chest"@, HalfPoint { x2: (2 * x) as i64, y2: (2 * y) as i64 }, Seq::empty(), Seq::empty()))
}

/// Chests on the first `n` cells of a 16x16 grid whose flag is set, taken
/// column by column and row by row, the square's corner at `(chunk_x, chunk_y)`.
pub open spec fn kit_cells(cells: Seq<bool>, chunk_x: int, chunk_y: int, n: nat) -> Seq<CommandView>
    decreases n,
{
    if n == 0 {
        Seq::empty()
    } else {
        let k = n - 1;
        let before = kit_cells(cells, chunk_x, chunk_y, k as nat);
        let (lx, ly) = (k / 16, k % 16);
        if cells[16 * ly + lx] {
            before.push(kit_chest(chunk_x + lx, chunk_y + ly))
        } else {
            before
        }
    }
}

/// The chests of the whole kit: the free tiles of the south, north, east and
/// west dual turns, in squares 32 tiles apart at row `chunk_y`.
pub open spec fn minified_kit_spec(chunk_y: int) -> Seq<CommandView> {
    kit_cells(dual_rail_south_empty_cells(), 0, chunk_y, 256)
        + kit_cells(dual_rail_north_empty_cells(), 32, chunk_y, 256)
        + kit_cells(dual_rail_east_empty_cells(), 64, chunk_y, 256)
        + kit_cells(dual_rail_west_empty_cells(), 96, chunk_y, 256)
}

fn append_kit_grid(commands: &mut Vec<BoxedLuaCommand>, grid: &StaticBitGrid, chunk_x: i32, chunk_y: i32)
    requires
        0 <= chunk_x <= 96,
        chunk_y <= i32::MAX - 15,
        i32::MIN <= chunk_y,
    ensures
        commands_view(final(commands)@) == commands_view(old(commands)@)
            + kit_cells(grid.inner@, chunk_x as int, chunk_y as int, 256),
{
    let mut k: usize = 0;
    while k < 256
        invariant
            k <= 256,
            0 <= chunk_x <= 96,
            chunk_y <= i32::MAX - 15,
            commands_view(commands@) == commands_view(old(commands)@)
                + kit_cells(grid.inner@, chunk_x as int, chunk_y as int, k as nat),
        decreases 256 - k,
    {
        let lx = k / 16;
        let ly = k % 16;
        let ghost before = commands_view(commands@);
        if grid.get(lx, ly) {
            let position = HalfPoint::new_whole(chunk_x + lx as i32, chunk_y + ly as i32);
            commands.push(FacSurfaceCreateEntity::new("steel-chest", position).into_boxed());
            proof {
                assert(commands_view(commands@) =~= before.push(kit_chest(chunk_x + lx, chunk_y + ly)));
            }
        }
        k = k + 1;
    }
}

/// Append a steel chest on every tile that the four dual turns leave free,
/// the squares' top row at `chunk_y_offset`.
pub fn insert_minified_kit(commands: &mut Vec<BoxedLuaCommand>, chunk_y_offset: i32)
    requires
        chunk_y_offset <= i32::MAX - 15,
    ensures
        commands_view(final(commands)@) == commands_view(old(commands)@) + minified_kit_spec(chunk_y_offset as int),
{
    append_kit_grid(commands, &dual_rail_south_empty(), 0, chunk_y_offset);
    append_kit_grid(commands, &dual_rail_north_empty(), 32, chunk_y_offset);
    append_kit_grid(commands, &dual_rail_east_empty(), 64, chunk_y_offset);
    append_kit_grid(commands, &dual_rail_west_empty(), 96, chunk_y_offset);
    proof {
        let y = chunk_y_offset as int;
        assert(commands_view(commands@) =~= commands_view(old(commands)@) + minified_kit_spec(y));
    }
}

/// Which of the four turn squares holds column `x`: 0 to 3 for the squares
/// at columns 0, 32, 64 and 96, or -1 for none.
pub open spec fn chest_turn(x: int) -> int {
    if 0 <= x < 16 {
        0
    } else if 32 <= x < 48 {
        1
    } else if 64 <= x < 80 {
        2
    } else if 96 <= x < 112 {
        3
    } else {
        -1
    }
}

/// Whether a chest lies in one of the turn squares whose top row is `chunk_y`.
pub open spec fn chest_fits(p: VPoint, chunk_y: int) -> bool {
    chest_turn(p.x as int) >= 0 && 0 <= p.y - chunk_y < 16
}

/// The cell of a chest in its square's grid, row by row.
pub open spec fn chest_cell(p: VPoint, chunk_y: int) -> int {
    16 * (p.y - chunk_y) + (p.x - 32 * chest_turn(p.x as int))
}

/// The grid of square `t` after the first `n` chests: a cell is set where
/// one of them stands.
pub open spec fn grid_upto(chests: Seq<VPoint>, chunk_y: int, t: int, n: int) -> Seq<bool> {
    Seq::new(256, |k: int| exists|i: int| 0 <= i < n && chest_turn(chests[i].x as int) == t
        && #[trigger] chest_cell(chests[i], chunk_y) == k)
}

proof fn lemma_grid_step(chests: Seq<VPoint>, chunk_y: int, t: int, n: int)
    requires
        0 <= n < chests.len(),
        chest_fits(chests[n], chunk_y),
    ensures
        grid_upto(chests, chunk_y, t, n + 1) == (if chest_turn(chests[n].x as int) == t {
            grid_upto(chests, chunk_y, t, n).update(chest_cell(chests[n], chunk_y), true)
        } else {
            grid_upto(chests, chunk_y, t, n)
        }),
{
    let next = grid_upto(chests, chunk_y, t, n + 1);
    let prev = grid_upto(chests, chunk_y, t, n);
    let c = chest_cell(chests[n], chunk_y);
    assert(0 <= c < 256);
    if chest_turn(chests[n].x as int) == t {
        assert forall|k: int| 0 <= k < 256 implies next[k] == prev.update(c, true)[k] by {
            if k == c {
                assert(chest_cell(chests[n], chunk_y) == k);
            } else if next[k] {
                let i = choose|i: int| 0 <= i < n + 1 && chest_turn(chests[i].x as int) == t
                    && #[trigger] chest_cell(chests[i], chunk_y) == k;
                assert(i < n);
            }
        }
        assert(next =~= prev.update(c, true));
    } else {
        assert forall|k: int| 0 <= k < 256 implies next[k] == prev[k] by {
            if next[k] {
                let i = choose|i: int| 0 <= i < n + 1 && chest_turn(chests[i].x as int) == t
                    && #[trigger] chest_cell(chests[i], chunk_y) == k;
                assert(i < n);
            }
        }
        assert(next =~= prev);
    }
}

fn empty_grid() -> (r: Vec<bool>)
    ensures
        r@ == Seq::new(256, |k: int| false),
{
    let mut r: Vec<bool> = Vec::new();
    while r.len() < 256
        invariant
            r@.len() <= 256,
            forall|k: int| 0 <= k < r@.len() ==> !r@[k],
        decreases 256 - r@.len(),
    {
        r.push(false);
    }
    assert(r@ =~= Seq::new(256, |k: int| false));
    r
}

/// The four 16x16 grids of the turn squares, row by row, with a cell set
/// where one of the placed chests stands: the free tiles of the north,
/// south, east and west dual turns that the turn-area extractor built. Every chest must lie in one of the squares
/// whose top row is `chunk_y_offset`.
pub fn minified_grids(chests: &Vec<VPoint>, chunk_y_offset: i32) -> (r: Vec<Vec<bool>>)
    requires
        forall|i: int| 0 <= i < chests@.len() ==> chest_fits(#[trigger] chests@[i], chunk_y_offset as int),
    ensures
        r@.len() == 4,
        forall|t: int| 0 <= t < 4 ==> (#[trigger] r@[t])@ == grid_upto(chests@, chunk_y_offset as int, t, chests@.len() as int),
{
    let ghost cs = chests@;
    let ghost cy = chunk_y_offset as int;
    let mut g0 = empty_grid();
    let mut g1 = empty_grid();
    let mut g2 = empty_grid();
    let mut g3 = empty_grid();
    proof {
        assert forall|t: int| grid_upto(cs, cy, t, 0) =~= Seq::new(256, |k: int| false) by {}
    }
    let mut n: usize = 0;
    while n < chests.len()
        invariant
            n <= cs.len(),
            cs == chests@,
            cy == chunk_y_offset as int,
            forall|i: int| 0 <= i < cs.len() ==> chest_fits(#[trigger] cs[i], cy),
            g0@ == grid_upto(cs, cy, 0, n as int),
            g1@ == grid_upto(cs, cy, 1, n as int),
            g2@ == grid_upto(cs, cy, 2, n as int),
            g3@ == grid_upto(cs, cy, 3, n as int),
        decreases cs.len() - n,
    {
        let p = chests[n];
        proof {
            assert(chest_fits(cs[n as int], cy));
            lemma_grid_step(cs, cy, 0, n as int);
            lemma_grid_step(cs, cy, 1, n as int);
            lemma_grid_step(cs, cy, 2, n as int);
            lemma_grid_step(cs, cy, 3, n as int);
        }
        let row: usize = (p.y as i64 - chunk_y_offset as i64) as usize;
        if p.x >= 0 && p.x < 16 {
            g0.set(16 * row + p.x as usize, true);
        } else if p.x >= 32 && p.x < 48 {
            g1.set(16 * row + (p.x - 32) as usize, true);
        } else if p.x >= 64 && p.x < 80 {
            g2.set(16 * row + (p.x - 64) as usize, true);
        } else {
            g3.set(16 * row + (p.x - 96) as usize, true);
        }
        n = n + 1;
    }
    let r = vec![g0, g1, g2, g3];
    proof {
        assert forall|t: int| 0 <= t < 4 implies (#[trigger] r@[t])@ == grid_upto(cs, cy, t, cs.len() as int) by {
            if t == 0 { assert(r@[0] == g0); } else if t == 1 { assert(r@[1] == g1); }
            else if t == 2 { assert(r@[2] == g2); } else { assert(r@[3] == g3); }
        }
    }
    r
}

} // verus!
