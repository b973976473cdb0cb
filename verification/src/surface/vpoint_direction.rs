//! A point together with the direction a rail leaves it in.

use vstd::prelude::*;
use crate::surface::vpoint::VPoint;
use crate::surface::direction::FacDirectionQuarter;

verus! {

/// A tile and the direction a rail leaves it in.
#[derive(Clone, Copy, PartialEq, Eq, Structural, Debug, Hash)]
pub struct VPointDirectionQ(pub VPoint, pub FacDirectionQuarter);

impl VPointDirectionQ {
    pub fn point(&self) -> (r: VPoint)
        ensures
            r == self.0,
    {
        self.0
    }

    pub fn direction(&self) -> (r: FacDirectionQuarter)
        ensures
            r == self.1,
    {
        self.1
    }
}

/// A rail segment to plan, from `start` to `end`.
#[derive(Clone, Copy, PartialEq, Eq, Structural, Debug, Hash)]
pub struct VSegment {
    pub start: VPointDirectionQ,
    pub end: VPointDirectionQ,
}

} // verus!
