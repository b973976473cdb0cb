//! Choosing which mines are planned together.

use vstd::prelude::*;
use crate::navigator::scanners::patch_grouper::{is_patch_grouping, nested_view};
use crate::surface::vpatch::{VPatch, patches_wf};
use crate::surface::vsurface::MineRef;

verus! {

/// Mines planned together, by reference into the surface's mines.
pub struct MineSelectBatch {
    pub mines: Vec<MineRef>,
}

/// The batches found, or none when a batch came out empty.
pub enum MineSelectBatchResult {
    Success { batches: Vec<MineSelectBatch> },
    EmptyBatch,
}

impl MineSelectBatchResult {
    /// The batches, unless a batch came out empty.
    pub fn into_success(self) -> (r: Option<Vec<MineSelectBatch>>)
        ensures
            match self {
                MineSelectBatchResult::Success { batches } => r == Some(batches),
                MineSelectBatchResult::EmptyBatch => r is None,
            },
    {
        match self {
            MineSelectBatchResult::Success { batches } => Some(batches),
            MineSelectBatchResult::EmptyBatch => None,
        }
    }
}

/// Patches found by the image pass, grouped when close to each other.
pub fn group_nearby_patches(patches: &Vec<VPatch>) -> (groups: Vec<Vec<usize>>)
    requires
        patches_wf(patches@),
    ensures
        is_patch_grouping(patches@, nested_view(groups@)),
{
    crate::navigator::scanners::patch_grouper::group_nearby_patches(patches)
}

} // verus!
