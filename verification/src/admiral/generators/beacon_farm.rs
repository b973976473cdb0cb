//! A field of beacons on a square grid, each filled with one module.

use vstd::prelude::*;
use crate::admiral::lua_command::{BoxedLuaCommand, CommandView, LuaCommandBatch, commands_view};
use crate::admiral::lua_command::fac_surface_create_entity::{FacSurfaceCreateEntity, entity_spec};
use crate::surface::vpoint::HalfPoint;

verus! {

/// Side of a beacon in tiles.
pub const BEACON_SIZE: u32 = 3;

/// Beacons along the lines of a grid of `width` by `height` cells, each cell
/// `cell_size` beacons wide counting both borders.
pub struct BeaconFarmGenerator {
    pub start: HalfPoint,
    pub cell_size: u32,
    pub width: u32,
    pub height: u32,
    pub module: String,
}

/// The Lua that puts `module` into the beacon just created.
pub open spec fn module_insert_lua(module: Seq<char>) -> Seq<char> {
    "admiral_create.get_module_inventory().insert(\""@ + module + "\")"@
}

/// The beacon at grid column `x`, row `y`.
pub open spec fn beacon_at(start: HalfPoint, module: Seq<char>, x: int, y: int) -> CommandView {
    CommandView::CreateEntity(entity_spec(
        "beacon"@,
        HalfPoint { x2: (start.x2 + 6 * x) as i64, y2: (start.y2 + 6 * y) as i64 },
        Seq::empty(),
        seq![module_insert_lua(module)],
    ))
}

/// Whether the grid position lies on a cell border.
pub open spec fn on_cell_border(z: int, x: int, y: int) -> bool {
    y % z == 0 || x % z == 0
}

/// The beacons of column `x` in rows below `n`.
pub open spec fn beacon_column(start: HalfPoint, module: Seq<char>, z: int, x: int, n: nat) -> Seq<CommandView>
    decreases n,
{
    if n == 0 {
        Seq::empty()
    } else {
        beacon_column(start, module, z, x, (n - 1) as nat) + if on_cell_border(z, x, n - 1) {
            seq![beacon_at(start, module, x, n - 1)]
        } else {
            Seq::empty()
        }
    }
}

/// The beacons of columns below `n`, column by column, with `rows` rows.
pub open spec fn beacon_field(start: HalfPoint, module: Seq<char>, z: int, rows: nat, n: nat) -> Seq<CommandView>
    decreases n,
{
    if n == 0 {
        Seq::empty()
    } else {
        beacon_field(start, module, z, rows, (n - 1) as nat) + beacon_column(start, module, z, n - 1, rows)
    }
}

impl LuaCommandBatch for BeaconFarmGenerator {
    /// The start is at the middle of a tile, cells hold at least two beacons,
    /// and the grid stays within the number ranges.
    open spec fn batch_ready(&self) -> bool {
        let z = self.cell_size - 1;
        &&& self.start.x2 % 2 != 0
        &&& self.start.y2 % 2 != 0
        &&& self.cell_size >= 2
        &&& z * self.width + 1 <= u32::MAX
        &&& z * self.height + 1 <= u32::MAX
        &&& self.start.x2 + 6 * (z * self.width) <= i64::MAX
        &&& self.start.y2 + 6 * (z * self.height) <= i64::MAX
    }

    open spec fn batch_commands(&self) -> Seq<CommandView> {
        let z = self.cell_size - 1;
        beacon_field(
            self.start,
            self.module@,
            z,
            (z * self.height + 1) as nat,
            (z * self.width + 1) as nat,
        )
    }

    fn make_lua_batch(self, lua_commands: &mut Vec<BoxedLuaCommand>) {
        let zero_cell_size: u32 = self.cell_size - 1;
        let ghost z = zero_cell_size as int;
        let ghost module = self.module@;
        let ghost start_view = commands_view(lua_commands@);
        assert(0 <= z * self.width) by (nonlinear_arith)
            requires z >= 1;
        assert(0 <= z * self.height) by (nonlinear_arith)
            requires z >= 1;
        let x_count: u32 = zero_cell_size * self.width + 1;
        let y_count: u32 = zero_cell_size * self.height + 1;
        let mut x: u32 = 0;
        while x < x_count
            invariant
                z == zero_cell_size,
                z >= 1,
                module == self.module@,
                x <= x_count,
                x_count == z * self.width + 1,
                y_count == z * self.height + 1,
                self.start.x2 + 6 * (z * self.width) <= i64::MAX,
                self.start.y2 + 6 * (z * self.height) <= i64::MAX,
                commands_view(lua_commands@) == start_view + beacon_field(self.start, module, z, y_count as nat, x as nat),
            decreases x_count - x,
        {
            let mut y: u32 = 0;
            let ghost column_start = commands_view(lua_commands@);
            while y < y_count
                invariant
                    z == zero_cell_size,
                    z >= 1,
                    module == self.module@,
                    x < x_count,
                    y <= y_count,
                    x_count == z * self.width + 1,
                    y_count == z * self.height + 1,
                    self.start.x2 + 6 * (z * self.width) <= i64::MAX,
                    self.start.y2 + 6 * (z * self.height) <= i64::MAX,
                    commands_view(lua_commands@) == column_start + beacon_column(self.start, module, z, x as int, y as nat),
                decreases y_count - y,
            {
                let ghost before = commands_view(lua_commands@);
                if y % zero_cell_size == 0 || x % zero_cell_size == 0 {
                    let mut insert = String::from_str("admiral_create.get_module_inventory().insert(\"");
                    insert.append(self.module.as_str());
                    insert.append("\")");
                    let commands = vec![insert];
                    let position = HalfPoint::new_halves(
                        self.start.x2 + 6 * (x as i64),
                        self.start.y2 + 6 * (y as i64),
                    );
                    let beacon = FacSurfaceCreateEntity::new_commands("beacon", position, commands).into_boxed();
                    lua_commands.push(beacon);
                    proof {
                        assert(crate::text::strings_view(commands@) =~= seq![module_insert_lua(module)]);
                        assert(commands_view(lua_commands@) =~= before.push(beacon_at(self.start, module, x as int, y as int)));
                    }
                }
                y += 1;
            }
            x += 1;
        }
    }
}

} // verus!
