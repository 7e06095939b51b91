//! Grid bookkeeping for the 2D acoustic diffusion-equation solver.

use vstd::prelude::*;

verus! {

/// Smallest grid extent the solver runs on along each axis.
pub const MIN_DIFFUSION_EXTENT: usize = 3;

/// Grid extents actually used for a requested `nx × ny` grid: at least 3
/// cells along each axis.
pub fn diffusion_dimensions(nx: usize, ny: usize) -> (r: (usize, usize))
    ensures
        r.0 == if nx < MIN_DIFFUSION_EXTENT { MIN_DIFFUSION_EXTENT } else { nx },
        r.1 == if ny < MIN_DIFFUSION_EXTENT { MIN_DIFFUSION_EXTENT } else { ny },
{
    (if nx < MIN_DIFFUSION_EXTENT { MIN_DIFFUSION_EXTENT } else { nx }, if ny < MIN_DIFFUSION_EXTENT {
        MIN_DIFFUSION_EXTENT
    } else {
        ny
    })
}

} // verus!
