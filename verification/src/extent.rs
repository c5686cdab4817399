//! The rectangle that a render is asked for.

use vstd::prelude::*;

verus! {

/// An axis-aligned rectangle in projected coordinates: the lower left
/// corner, then the upper right one. Each bound is held as the bit pattern
/// of a double-precision number: the pool hands extents on to the renderer
/// and never computes with them.
#[derive(Clone, Copy, Debug, PartialEq, Eq, Structural)]
pub struct Extent(pub u64, pub u64, pub u64, pub u64);

impl Extent {
    pub fn from(e: (u64, u64, u64, u64)) -> (extent: Extent)
        ensures
            extent == Extent(e.0, e.1, e.2, e.3),
    {
        Extent(e.0, e.1, e.2, e.3)
    }
}

} // verus!
