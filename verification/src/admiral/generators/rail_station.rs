//! A train station at the end of a pocket loop of rails.

use vstd::prelude::*;
use crate::admiral::lua_command::{BoxedLuaCommand, CommandView, commands_view};
use crate::admiral::lua_command::fac_surface_create_entity::{CreateParam, FacSurfaceCreateEntity, ParamView, entity_spec};
use crate::surface::direction::RailDirection;
use crate::surface::vpoint::HalfPoint;

verus! {

/// A station for trains of `wagon_size` wagons, its loop starting at `start`.
pub struct RailStationGenerator {
    pub start: HalfPoint,
    pub wagon_size: u32,
}

/// A `u32` value read as `i32`, wrapping past `i32::MAX`.
pub open spec fn wrapped_i32(v: int) -> int {
    if v <= i32::MAX { v } else { v - 0x1_0000_0000 }
}

/// The tile column where the straight part of the loop ends: six tiles per
/// wagon past the start.
pub open spec fn station_x_end(g: RailStationGenerator) -> int {
    g.start.x2 / 2 + wrapped_i32(6 * g.wagon_size)
}

impl RailStationGenerator {
    /// End of the straight rails: six tiles per wagon past the start.
    pub fn x_end(&self) -> (r: i32)
        requires
            self.start.x2 % 2 == 0,
            i32::MIN <= self.start.x2 / 2 <= i32::MAX,
            self.wagon_size * 6 <= u32::MAX,
            i32::MIN <= station_x_end(*self) <= i32::MAX,
        ensures
            r == station_x_end(*self),
    {
        let wagons_to_rails: u32 = self.wagon_size * 6;
        let x: i64 = self.start.x2 / 2;
        let rails: i64 = if wagons_to_rails <= 0x7fff_ffff {
            wagons_to_rails as i64
        } else {
            wagons_to_rails as i64 - 0x1_0000_0000
        };
        (x + rails) as i32
    }

    /// The train stop beside the end of the straight rails.
    pub fn make_station(&self, creation_commands: &mut Vec<BoxedLuaCommand>)
        requires
            self.start.x2 % 2 == 0,
            i32::MIN <= self.start.x2 / 2 <= i32::MAX,
            self.wagon_size * 6 <= u32::MAX,
            i32::MIN <= station_x_end(*self),
            station_x_end(*self) + 1 <= i32::MAX,
            self.start.y2 + 6 <= i64::MAX,
        ensures
            commands_view(final(creation_commands)@) == commands_view(old(creation_commands)@).push(
                CommandView::CreateEntity(entity_spec(
                    "train-stop"@,
                    HalfPoint { x2: (2 * (station_x_end(*self) + 1)) as i64, y2: (self.start.y2 + 6) as i64 },
                    seq![ParamView::Direction(RailDirection::Left)],
                    Seq::empty(),
                )),
            ),
    {
        let x_end = self.x_end();
        let position = HalfPoint::new_halves(2 * (x_end as i64 + 1), self.start.y2 + 6);
        let stop = FacSurfaceCreateEntity::new_params("train-stop", position, CreateParam::direction(RailDirection::Left)).into_boxed();
        let ghost before = commands_view(creation_commands@);
        creation_commands.push(stop);
        proof {
            assert(commands_view(creation_commands@) =~= before.push(stop@));
        }
    }
}

} // verus!
