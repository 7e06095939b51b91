//! Grid bookkeeping for the Green's-function parabolic equation (GFPE)
//! outdoor propagation solver.
//!
//! The solver marches a field of `num_heights` height cells over
//! `num_ranges` range columns and stores the excess attenuation row-major
//! by range: `range_idx · num_heights + height_idx`.

use vstd::prelude::*;

verus! {

/// Maximum number of cells `num_heights · num_ranges` the solver accepts.
pub const MAX_GFPE_GRID_CELLS: usize = 10_000_000;

/// Grid extents for the requested height-cell and range-step counts: at
/// least 2 height cells, and one range column more than the number of
/// range steps (at least one step). `None` when the grid would exceed
/// [`MAX_GFPE_GRID_CELLS`].
pub fn gfpe_grid(height_cells: usize, range_steps: usize) -> (r: Option<(usize, usize)>)
    requires
        range_steps < usize::MAX,
    ensures
        ({
            let nz = if height_cells < 2 { 2 } else { height_cells as int };
            let nr = if range_steps < 1 { 2 } else { range_steps + 1 };
            &&& r is Some <==> nz * nr <= MAX_GFPE_GRID_CELLS
            &&& r matches Some((h, g)) ==> h == nz && g == nr
        }),
{
    let nz: usize = if height_cells < 2 { 2 } else { height_cells };
    let nr: usize = if range_steps < 1 { 2 } else { range_steps + 1 };
    match nz.checked_mul(nr) {
        Some(n) => if n > MAX_GFPE_GRID_CELLS {
            None
        } else {
            Some((nz, nr))
        },
        None => None,
    }
}

/// Index of the cell at `(range_idx, height_idx)`, or `None` when either
/// index is out of range.
pub fn gfpe_cell(range_idx: usize, height_idx: usize, num_ranges: usize, num_heights: usize) -> (r: Option<
    usize,
>)
    requires
        num_ranges * num_heights <= usize::MAX,
    ensures
        r is Some <==> (range_idx < num_ranges && height_idx < num_heights),
        r matches Some(i) ==> i == range_idx * num_heights + height_idx && i < num_ranges * num_heights,
{
    if range_idx >= num_ranges || height_idx >= num_heights {
        return None;
    }
    proof {
        assert(range_idx * num_heights + height_idx < num_ranges * num_heights) by (nonlinear_arith)
            requires
                range_idx < num_ranges,
                height_idx < num_heights,
        ;
        assert(range_idx * num_heights >= 0) by (nonlinear_arith)
            requires
                range_idx >= 0,
                num_heights >= 0,
        ;
    }
    Some(range_idx * num_heights + height_idx)
}

} // verus!
