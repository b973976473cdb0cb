//! What occupies one tile of the surface.

use vstd::prelude::*;

verus! {

/// The content of one tile.
#[derive(Clone, Copy, PartialEq, Eq, Structural, Debug, Hash)]
pub enum Pixel {
    Empty,
    IronOre,
    CopperOre,
    Stone,
    Coal,
    CrudeOil,
    UraniumOre,
    Water,
    Rail,
    EdgeWall,
    MineNoTouch,
    SteelChest,
    Highlighter,
}

/// Whether a pixel is a minable resource.
pub open spec fn pixel_is_resource(p: Pixel) -> bool {
    match p {
        Pixel::IronOre | Pixel::CopperOre | Pixel::Stone | Pixel::Coal | Pixel::CrudeOil | Pixel::UraniumOre => true,
        _ => false,
    }
}

impl Pixel {
    pub fn is_resource(&self) -> (r: bool)
        ensures
            r == pixel_is_resource(*self),
    {
        match self {
            Pixel::IronOre | Pixel::CopperOre | Pixel::Stone | Pixel::Coal | Pixel::CrudeOil | Pixel::UraniumOre => true,
            _ => false,
        }
    }
}

} // verus!
