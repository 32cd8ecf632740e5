//! One fire-bearing cell of an image.

use crate::pixel::Pixel;
use vstd::prelude::*;

verus! {

/// A cell of the raster in which fire was detected: its column and row, and
/// the pixel that it covers on the ground.
#[derive(Clone, Copy, Debug, PartialEq, Eq, Structural)]
pub struct FirePoint {
    /// The column of the cell in the raster.
    pub x: isize,
    /// The row of the cell in the raster.
    pub y: isize,
    /// The ground that the cell covers, with what was measured there.
    pub pixel: Pixel,
}

/// Two cells are the same or neighbours, diagonal neighbours included: their
/// columns differ by at most one, and so do their rows.
pub open spec fn touching(a: FirePoint, b: FirePoint) -> bool {
    &&& -1 <= a.x - b.x <= 1
    &&& -1 <= a.y - b.y <= 1
}

fn within_one(a: isize, b: isize) -> (r: bool)
    ensures
        r == (-1 <= a - b <= 1),
{
    a == b || (b < isize::MAX && a == b + 1) || (a < isize::MAX && b == a + 1)
}

impl FirePoint {
    /// Tells whether two cells are the same or neighbours.
    pub fn touches(&self, other: &FirePoint) -> (r: bool)
        ensures
            r == touching(*self, *other),
    {
        within_one(self.x, other.x) && within_one(self.y, other.y)
    }
}

} // verus!
