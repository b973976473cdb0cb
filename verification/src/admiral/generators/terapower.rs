//! A grid of big electric poles with radars.

use vstd::prelude::*;
use crate::surface::vpoint::VPoint;

verus! {

/// A power grid of `width` by `height` poles from `start`.
#[derive(Clone, Copy, PartialEq, Eq, Structural, Debug)]
pub struct Terapower {
    pub start: VPoint,
    pub width: u32,
    pub height: u32,
}

} // verus!
