//! Grid bookkeeping for the 2D finite-difference time-domain (FDTD) solver.
//!
//! Cells of an `nx × ny` grid are stored row-major at `y · nx + x`. Each
//! step first updates the interior cells from the wave equation, then sets
//! each rigid-wall edge cell to its interior neighbour (zero normal
//! gradient), then each corner to the average of its two edge neighbours.

use vstd::prelude::*;

verus! {

/// Maximum number of grid cells `nx · ny` the solver accepts.
pub const MAX_FDTD_GRID_CELLS: usize = 4_000_000;

/// Smallest accepted extent along each axis.
pub const MIN_FDTD_EXTENT: usize = 3;

/// Receiver — a grid cell whose pressure history is recorded.
#[derive(Clone, Copy, Debug, PartialEq, Eq, Structural)]
pub struct FdtdReceiver {
    /// Grid x-index.
    pub ix: usize,
    /// Grid y-index.
    pub iy: usize,
}

impl FdtdReceiver {
    /// Whether the receiver's cell lies inside an `nx × ny` grid.
    pub fn in_grid(&self, nx: usize, ny: usize) -> (r: bool)
        ensures
            r == (self.ix < nx && self.iy < ny),
    {
        self.ix < nx && self.iy < ny
    }
}

/// Number of grid cells the solver runs on, or `None` when the grid has
/// fewer than 3 cells along an axis or more than [`MAX_FDTD_GRID_CELLS`].
pub fn fdtd_grid_cells(nx: usize, ny: usize) -> (r: Option<usize>)
    ensures
        r is Some <==> (nx >= MIN_FDTD_EXTENT && ny >= MIN_FDTD_EXTENT && nx * ny <= MAX_FDTD_GRID_CELLS),
        r matches Some(n) ==> n == nx * ny,
{
    if nx < MIN_FDTD_EXTENT || ny < MIN_FDTD_EXTENT {
        return None;
    }
    match nx.checked_mul(ny) {
        Some(n) => if n > MAX_FDTD_GRID_CELLS {
            None
        } else {
            Some(n)
        },
        None => None,
    }
}

/// Row-major index of cell `(x, y)`.
pub open spec fn cell_index(x: int, y: int, nx: int) -> int {
    y * nx + x
}

proof fn lemma_cell_index_bounds(x: int, y: int, nx: int, ny: int)
    requires
        0 <= x < nx,
        0 <= y < ny,
    ensures
        0 <= cell_index(x, y, nx) < nx * ny,
{
    assert(0 <= y * nx + x < nx * ny) by (nonlinear_arith)
        requires
            0 <= x < nx,
            0 <= y < ny,
    ;
}

/// Index of cell `(ix, iy)`, or `None` when it lies outside the grid.
pub fn fdtd_cell_index(ix: usize, iy: usize, nx: usize, ny: usize) -> (r: Option<usize>)
    requires
        nx * ny <= usize::MAX,
    ensures
        r is Some <==> (ix < nx && iy < ny),
        r matches Some(i) ==> i == cell_index(ix as int, iy as int, nx as int) && i < nx * ny,
{
    if ix < nx && iy < ny {
        proof {
            lemma_cell_index_bounds(ix as int, iy as int, nx as int, ny as int);
        }
        Some(iy * nx + ix)
    } else {
        None
    }
}

/// For each receiver, the index of its cell, or `None` when it lies
/// outside the grid (such a receiver records nothing).
pub fn fdtd_receiver_cells(receivers: &[FdtdReceiver], nx: usize, ny: usize) -> (r: Vec<Option<usize>>)
    requires
        nx * ny <= usize::MAX,
    ensures
        r@.len() == receivers@.len(),
        forall|i: int|
            0 <= i < r@.len() ==> #[trigger] r@[i] == if receivers@[i].ix < nx && receivers@[i].iy < ny {
                Some(cell_index(receivers@[i].ix as int, receivers@[i].iy as int, nx as int) as usize)
            } else {
                None::<usize>
            },
{
    let mut out: Vec<Option<usize>> = Vec::new();
    let mut i: usize = 0;
    while i < receivers.len()
        invariant
            i <= receivers@.len(),
            out@.len() == i,
            nx * ny <= usize::MAX,
            forall|j: int|
                0 <= j < i ==> #[trigger] out@[j] == if receivers@[j].ix < nx && receivers@[j].iy < ny {
                    Some(cell_index(receivers@[j].ix as int, receivers@[j].iy as int, nx as int) as usize)
                } else {
                    None::<usize>
                },
        decreases receivers@.len() - i,
    {
        let rx = receivers[i];
        out.push(fdtd_cell_index(rx.ix, rx.iy, nx, ny));
        i = i + 1;
    }
    out
}

/// How the next value of a cell is obtained within one step.
#[derive(Clone, Copy, Debug, PartialEq, Eq, Structural)]
pub enum FdtdCell {
    /// Updated from the discrete wave equation (5-point Laplacian).
    Interior,
    /// A wall cell: copies the value of the cell at `from`.
    Edge {
        /// Index of the interior neighbour it copies.
        from: usize,
    },
    /// A corner: the average of the two cells at `a` and `b`.
    Corner {
        /// Index of the first edge neighbour.
        a: usize,
        /// Index of the second edge neighbour.
        b: usize,
    },
}

/// Whether `(x, y)` is an interior cell.
pub open spec fn is_interior(x: int, y: int, nx: int, ny: int) -> bool {
    1 <= x <= nx - 2 && 1 <= y <= ny - 2
}

/// Whether `(x, y)` is a wall cell that is not a corner.
pub open spec fn is_edge(x: int, y: int, nx: int, ny: int) -> bool {
    0 <= x < nx && 0 <= y < ny && !is_interior(x, y, nx, ny) && ((1 <= x <= nx - 2) || (1 <= y
        <= ny - 2))
}

/// The update rule of cell `(x, y)`.
pub open spec fn fdtd_cell_spec(x: int, y: int, nx: int, ny: int) -> FdtdCell {
    if is_interior(x, y, nx, ny) {
        FdtdCell::Interior
    } else if 1 <= x <= nx - 2 {
        if y == 0 {
            FdtdCell::Edge { from: cell_index(x, 1, nx) as usize }
        } else {
            FdtdCell::Edge { from: cell_index(x, ny - 2, nx) as usize }
        }
    } else if 1 <= y <= ny - 2 {
        if x == 0 {
            FdtdCell::Edge { from: cell_index(1, y, nx) as usize }
        } else {
            FdtdCell::Edge { from: cell_index(nx - 2, y, nx) as usize }
        }
    } else if x == 0 && y == 0 {
        FdtdCell::Corner { a: cell_index(1, 0, nx) as usize, b: cell_index(0, 1, nx) as usize }
    } else if y == 0 {
        FdtdCell::Corner {
            a: cell_index(nx - 2, 0, nx) as usize,
            b: cell_index(nx - 1, 1, nx) as usize,
        }
    } else if x == 0 {
        FdtdCell::Corner {
            a: cell_index(1, ny - 1, nx) as usize,
            b: cell_index(0, ny - 2, nx) as usize,
        }
    } else {
        FdtdCell::Corner {
            a: cell_index(nx - 2, ny - 1, nx) as usize,
            b: cell_index(nx - 1, ny - 2, nx) as usize,
        }
    }
}

/// The update rule of cell `(x, y)` of an `nx × ny` grid. Wall cells read
/// only interior cells, and corners read only wall cells that are not
/// corners, so updating the interior, then the walls, then the corners
/// never reads a value that this step has not produced yet.
pub fn fdtd_cell_update(x: usize, y: usize, nx: usize, ny: usize) -> (r: FdtdCell)
    requires
        nx >= MIN_FDTD_EXTENT,
        ny >= MIN_FDTD_EXTENT,
        x < nx,
        y < ny,
        nx * ny <= usize::MAX,
    ensures
        r == fdtd_cell_spec(x as int, y as int, nx as int, ny as int),
        r matches FdtdCell::Edge { from } ==> exists|fx: int, fy: int|
            is_interior(fx, fy, nx as int, ny as int) && from == cell_index(fx, fy, nx as int),
        r matches FdtdCell::Corner { a, b } ==> (exists|ax: int, ay: int|
            is_edge(ax, ay, nx as int, ny as int) && a == cell_index(ax, ay, nx as int)) && (exists|
            bx: int,
            by: int,
        | is_edge(bx, by, nx as int, ny as int) && b == cell_index(bx, by, nx as int)),
{
    proof {
        lemma_cell_index_bounds((nx - 1) as int, (ny - 1) as int, nx as int, ny as int);
        assert(2 * nx <= nx * ny) by (nonlinear_arith)
            requires
                ny >= 3,
                nx >= 0,
        ;
        assert(cell_index(x as int, 1, nx as int) == nx + x);
        assert(cell_index(x as int, ny - 2, nx as int) == (ny - 2) * nx + x);
        assert((ny - 2) * nx + x <= (ny - 1) * nx + nx - 1) by (nonlinear_arith)
            requires
                x < nx,
                ny >= 3,
        ;
        assert(y * nx + nx - 1 <= (ny - 1) * nx + nx - 1) by (nonlinear_arith)
            requires
                y <= ny - 1,
                nx >= 0,
        ;
    }
    let interior = 1 <= x && x <= nx - 2 && 1 <= y && y <= ny - 2;
    if interior {
        FdtdCell::Interior
    } else if 1 <= x && x <= nx - 2 {
        if y == 0 {
            proof {
                assert(is_interior(x as int, 1, nx as int, ny as int));
            }
            FdtdCell::Edge { from: nx + x }
        } else {
            proof {
                assert(is_interior(x as int, ny - 2, nx as int, ny as int));
            }
            FdtdCell::Edge { from: (ny - 2) * nx + x }
        }
    } else if 1 <= y && y <= ny - 2 {
        if x == 0 {
            proof {
                assert(is_interior(1, y as int, nx as int, ny as int));
            }
            FdtdCell::Edge { from: y * nx + 1 }
        } else {
            proof {
                assert(is_interior(nx - 2, y as int, nx as int, ny as int));
            }
            FdtdCell::Edge { from: y * nx + nx - 2 }
        }
    } else if x == 0 && y == 0 {
        proof {
            assert(is_edge(1, 0, nx as int, ny as int));
            assert(is_edge(0, 1, nx as int, ny as int));
        }
        FdtdCell::Corner { a: 1, b: nx }
    } else if y == 0 {
        proof {
            assert(is_edge(nx - 2, 0, nx as int, ny as int));
            assert(is_edge(nx - 1, 1, nx as int, ny as int));
        }
        FdtdCell::Corner { a: nx - 2, b: 2 * nx - 1 }
    } else if x == 0 {
        let top_left = (ny - 1) * nx;
        proof {
            assert(is_edge(1, ny - 1, nx as int, ny as int));
            assert(is_edge(0, ny - 2, nx as int, ny as int));
            assert((ny - 1) * nx == (ny - 2) * nx + nx) by (nonlinear_arith);
        }
        FdtdCell::Corner { a: top_left + 1, b: top_left - nx }
    } else {
        let top_left = (ny - 1) * nx;
        proof {
            assert(is_edge(nx - 2, ny - 1, nx as int, ny as int));
            assert(is_edge(nx - 1, ny - 2, nx as int, ny as int));
            assert((ny - 1) * nx == (ny - 2) * nx + nx) by (nonlinear_arith);
        }
        FdtdCell::Corner { a: top_left + nx - 2, b: top_left + nx - 1 - nx }
    }
}

} // verus!
