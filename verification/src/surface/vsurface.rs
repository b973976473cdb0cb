//! A square surface of pixels around the map origin.

use vstd::prelude::*;
use crate::surface::vpoint::VPoint;
use crate::surface::pixel::Pixel;

verus! {

/// A mine on the surface, by its index.
#[derive(Clone, Copy, PartialEq, Eq, Structural, Debug, Hash)]
pub struct MineRef(pub usize);

/// One of the destinations of a mine: the mine and the destination's index.
#[derive(Clone, Copy, PartialEq, Eq, Structural, Debug, Hash)]
pub struct MineDestinationRef {
    pub mine: MineRef,
    pub destination: usize,
}

impl MineDestinationRef {
    pub fn mine_ref(&self) -> (r: MineRef)
        ensures
            r == self.mine,
    {
        self.mine
    }
}

/// Errors of surface access.
#[derive(Clone, Copy, PartialEq, Eq, Structural, Debug)]
pub enum VError {
    XYOutOfBounds { position: VPoint },
}

/// Pixels of the square `-radius..radius` on both axes, row by row from the top.
pub struct VSurface {
    radius: u32,
    pixels: Vec<Pixel>,
}

/// Whether a point lies outside the square of the given radius.
pub open spec fn out_of_bounds(radius: int, p: VPoint) -> bool {
    !(-radius <= p.x < radius && -radius <= p.y < radius)
}

/// Index of an in-bounds point in the row-major pixel vector.
pub open spec fn xy_index(radius: int, p: VPoint) -> int {
    (p.y + radius) * (2 * radius) + (p.x + radius)
}

proof fn lemma_index_in_range(radius: int, p: VPoint)
    requires
        radius >= 0,
        !out_of_bounds(radius, p),
    ensures
        0 <= xy_index(radius, p) < 4 * radius * radius,
{
    let d = 2 * radius;
    let iy = p.y + radius;
    let ix = p.x + radius;
    assert(0 <= iy * d + ix < d * d) by (nonlinear_arith)
        requires 0 <= iy < d, 0 <= ix < d;
    assert(d * d == 4 * radius * radius) by (nonlinear_arith)
        requires d == 2 * radius;
}

impl VSurface {
    /// The radius of the square.
    pub closed spec fn spec_radius(&self) -> int {
        self.radius as int
    }

    /// The pixels, row by row.
    pub closed spec fn spec_pixels(&self) -> Seq<Pixel> {
        self.pixels@
    }

    /// The pixel vector has one pixel per tile.
    pub open spec fn wf(&self) -> bool {
        self.spec_pixels().len() == 4 * self.spec_radius() * self.spec_radius()
    }

    /// The pixel at an in-bounds point.
    pub open spec fn pixel_at(&self, p: VPoint) -> Pixel {
        self.spec_pixels()[xy_index(self.spec_radius(), p)]
    }

    /// An empty surface. It allocates the full square, so the radius must
    /// keep that square addressable.
    pub fn new(radius: u32) -> (r: Self)
        requires
            4 * radius * radius <= usize::MAX,
        ensures
            r.wf(),
            r.spec_radius() == radius,
            forall|i: int| 0 <= i < r.spec_pixels().len() ==> r.spec_pixels()[i] == Pixel::Empty,
    {
        let total: usize = (4 * (radius as u64) * (radius as u64)) as usize;
        let mut pixels: Vec<Pixel> = Vec::new();
        let mut i: usize = 0;
        while i < total
            invariant
                i <= total,
                total == 4 * radius * radius,
                pixels@.len() == i,
                forall|j: int| 0 <= j < i ==> pixels@[j] == Pixel::Empty,
            decreases total - i,
        {
            pixels.push(Pixel::Empty);
            i = i + 1;
        }
        VSurface { radius, pixels }
    }

    pub fn get_radius(&self) -> (r: u32)
        ensures
            r == self.spec_radius(),
    {
        self.radius
    }

    /// Side length of the square.
    pub fn get_diameter(&self) -> (r: u64)
        ensures
            r == 2 * self.spec_radius(),
    {
        2 * (self.radius as u64)
    }

    pub fn is_point_out_of_bounds(&self, p: &VPoint) -> (r: bool)
        ensures
            r == out_of_bounds(self.spec_radius(), *p),
    {
        let r = self.radius as i64;
        !(-r <= p.x as i64 && (p.x as i64) < r && -r <= p.y as i64 && (p.y as i64) < r)
    }

    fn xy_to_index(&self, p: &VPoint) -> (i: usize)
        requires
            self.wf(),
            !out_of_bounds(self.spec_radius(), *p),
        ensures
            i == xy_index(self.spec_radius(), *p),
            i < self.spec_pixels().len(),
    {
        proof { lemma_index_in_range(self.radius as int, *p); }
        let len = self.pixels.len();
        let d: u64 = 2 * (self.radius as u64);
        let iy: u64 = (p.y as i64 + self.radius as i64) as u64;
        let ix: u64 = (p.x as i64 + self.radius as i64) as u64;
        proof {
            assert(iy * d + ix < d * d) by (nonlinear_arith)
                requires iy < d, ix < d;
            assert(d * d == 4 * self.radius * self.radius) by (nonlinear_arith)
                requires d == 2 * self.radius;
            assert(len as int == self.pixels@.len());
            assert(iy * d <= iy * d + ix);
        }
        (iy * d + ix) as usize
    }

    /// The pixel at an in-bounds point.
    pub fn get_pixel(&self, p: VPoint) -> (r: Pixel)
        requires
            self.wf(),
            !out_of_bounds(self.spec_radius(), p),
        ensures
            r == self.pixel_at(p),
    {
        let i = self.xy_to_index(&p);
        self.pixels[i]
    }

    /// Replace the pixel at a point; a point out of bounds is an error and changes nothing.
    pub fn set_pixel(&mut self, p: VPoint, pixel: Pixel) -> (r: Result<(), VError>)
        requires
            old(self).wf(),
        ensures
            final(self).wf(),
            final(self).spec_radius() == old(self).spec_radius(),
            r is Ok <==> !out_of_bounds(old(self).spec_radius(), p),
            r == Err::<(), VError>(VError::XYOutOfBounds { position: p }) <==> out_of_bounds(old(self).spec_radius(), p),
            r is Ok ==> final(self).spec_pixels() == old(self).spec_pixels().update(xy_index(old(self).spec_radius(), p), pixel),
            r is Err ==> final(self).spec_pixels() == old(self).spec_pixels(),
    {
        if self.is_point_out_of_bounds(&p) {
            return Err(VError::XYOutOfBounds { position: p });
        }
        let i = self.xy_to_index(&p);
        self.pixels.set(i, pixel);
        Ok(())
    }

    /// Whether every point is an empty pixel. Every point must be in bounds.
    pub fn is_points_free_unchecked(&self, points: &[VPoint]) -> (r: bool)
        requires
            self.wf(),
            forall|i: int| 0 <= i < points@.len() ==> !out_of_bounds(self.spec_radius(), #[trigger] points@[i]),
        ensures
            r == forall|i: int| 0 <= i < points@.len() ==> self.pixel_at(#[trigger] points@[i]) == Pixel::Empty,
    {
        let mut i: usize = 0;
        while i < points.len()
            invariant
                self.wf(),
                i <= points@.len(),
                forall|j: int| 0 <= j < points@.len() ==> !out_of_bounds(self.spec_radius(), #[trigger] points@[j]),
                forall|j: int| 0 <= j < i ==> self.pixel_at(#[trigger] points@[j]) == Pixel::Empty,
            decreases points@.len() - i,
        {
            if self.get_pixel(points[i]) != Pixel::Empty {
                return false;
            }
            i = i + 1;
        }
        true
    }

    /// All pixels, row by row from the top.
    pub fn dump_pixels_xy(&self) -> (r: &[Pixel])
        ensures
            r@ == self.spec_pixels(),
    {
        self.pixels.as_slice()
    }
}

} // verus!
