//! Patches of one resource found on the surface.

use vstd::prelude::*;
use crate::surface::pixel::Pixel;
use crate::surface::varea::{VArea, area_wf};

verus! {

/// A connected patch of one resource and the rectangle around it.
#[derive(Clone, Copy, PartialEq, Eq, Structural, Debug)]
pub struct VPatch {
    pub resource: Pixel,
    pub area: VArea,
}

/// Whether every patch has ordered corners.
pub open spec fn patches_wf(patches: Seq<VPatch>) -> bool {
    forall|i: int| 0 <= i < patches.len() ==> area_wf(#[trigger] patches[i].area)
}

} // verus!
