//! The numbers that tune base placement and path finding.

use vstd::prelude::*;
use crate::navigator::mori_cost::MoriCostMode;

verus! {

/// Tiles per map chunk.
pub const TILES_PER_CHUNK_I32: i32 = 32;

/// A length counted in chunks.
#[derive(Clone, Copy, PartialEq, Eq, Structural, Debug)]
pub struct ChunkValue {
    pub chunks: u32,
}

impl ChunkValue {
    /// The length in tiles.
    pub fn as_tiles_i32(&self) -> (r: i32)
        requires
            self.chunks * 32 <= i32::MAX,
        ensures
            r == self.chunks * 32,
    {
        (self.chunks * 32) as i32
    }
}

/// Size of the central base.
#[derive(Clone, Copy, PartialEq, Eq, Structural, Debug)]
pub struct BaseTunables {
    pub base_chunks: ChunkValue,
}

/// Costs the rail path finder charges.
#[derive(Clone, Copy, PartialEq, Eq, Structural, Debug)]
pub struct MoriTunables {
    pub cost_mode: MoriCostMode,
    pub straight_cost_unit: u32,
    pub turn_cost_unit: u32,
    pub crop_radius: u32,
}

/// Window sizes of the rolling planner.
#[derive(Clone, Copy, PartialEq, Eq, Structural, Debug)]
pub struct AltareTunables {
    pub step_size: u32,
    pub queue_scan: usize,
    pub queue_redo: usize,
}

/// Spacing of the rail starts along the base and of the mine scans.
#[derive(Clone, Copy, PartialEq, Eq, Structural, Debug)]
pub struct PathCommonTunables {
    /// Rails that share one section before the next section starts.
    pub base_source_intra_rails: u8,
    /// Sideways distance between sections.
    pub base_source_section_step: i32,
    /// Forward offset of each rail inside a section.
    pub base_source_intra_forward: i32,
    /// Sideways offset of each rail inside a section.
    pub base_source_intra_sideways: i32,
    /// Width of one mine scan.
    pub scan_size: i32,
}

/// Every tunable of a run.
#[derive(Clone, Copy, PartialEq, Eq, Structural, Debug)]
pub struct Tunables {
    pub base: BaseTunables,
    pub mori: MoriTunables,
    pub altare: AltareTunables,
    pub path_common: PathCommonTunables,
}

} // verus!
