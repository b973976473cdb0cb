//! How the rail path finder prices a step.

use vstd::prelude::*;
use crate::state::tuneables::MoriTunables;
use crate::surface::vpoint::{VPoint, manhattan};
use crate::surface::vpoint_direction::VPointDirectionQ;

verus! {

/// Which cost function the path finder uses.
#[derive(Clone, Copy, PartialEq, Eq, Structural, Debug)]
pub enum MoriCostMode {
    Dummy,
    DistanceManhattanOnly,
    Complete,
}

/// The shape of a link of rail.
#[derive(Clone, Copy, PartialEq, Eq, Structural, Debug)]
pub enum HopeLinkType {
    Straight,
    Turn90,
    Shift45,
}

/// Manhattan distance from where the link ends to the segment's end.
pub fn distance_by_basic_manhattan(next_pos: VPoint, end: &VPointDirectionQ) -> (r: u32)
    requires
        manhattan(next_pos, end.0) <= u32::MAX,
    ensures
        r == manhattan(next_pos, end.0),
{
    next_pos.distance_to(&end.0)
}

/// The distance to the end, times the unit cost of the link's shape. A
/// 45 degree shift has no price yet.
pub fn distance_by_punish_turns(next_pos: VPoint, link_type: HopeLinkType, end: &VPointDirectionQ, tune: &MoriTunables) -> (r: u32)
    requires
        link_type != HopeLinkType::Shift45,
        manhattan(next_pos, end.0) <= u32::MAX,
        manhattan(next_pos, end.0) * (if link_type == HopeLinkType::Straight { tune.straight_cost_unit } else { tune.turn_cost_unit }) <= u32::MAX,
    ensures
        r == manhattan(next_pos, end.0) * (if link_type == HopeLinkType::Straight { tune.straight_cost_unit } else { tune.turn_cost_unit }),
{
    let base_distance = distance_by_basic_manhattan(next_pos, end);
    let link_cost: u32 = match link_type {
        HopeLinkType::Straight => tune.straight_cost_unit,
        _ => tune.turn_cost_unit,
    };
    base_distance * link_cost
}

} // verus!
