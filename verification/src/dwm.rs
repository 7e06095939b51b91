//! Grid bookkeeping for the 3D rectilinear digital waveguide mesh (DWM).
//!
//! Nodes of an `nx × ny × nz` grid are stored row-major at
//! `(z · ny + y) · nx + x`. Each node is a 6-port scattering junction;
//! its outgoing waves are stored at `node · 6 + port`, with ports
//! `0 = +x, 1 = −x, 2 = +y, 3 = −y, 4 = +z, 5 = −z`. At each step a node
//! receives, from each direction, the wave its neighbour emitted toward it,
//! or — on a boundary face — its own outgoing wave reflected through that
//! face's filter, whose state is kept per boundary cell.

use vstd::prelude::*;

verus! {

/// Number of waveguide ports per node (rectilinear lattice: ±x, ±y, ±z).
pub const DWM_PORTS: usize = 6;

/// Maximum number of grid cells `nx · ny · nz` the solver accepts.
pub const MAX_DWM_GRID_CELLS: usize = 4_000_000;

/// Smallest accepted extent along each axis.
pub const MIN_DWM_EXTENT: usize = 3;

/// Maximum number of time steps a wave solver runs.
pub const MAX_TIME_STEPS: u32 = 1_000_000;

/// The number of time steps actually run for a requested count: at most
/// [`MAX_TIME_STEPS`].
pub fn clamp_time_steps(requested: u32) -> (n: u32)
    ensures
        n == if requested < MAX_TIME_STEPS { requested } else { MAX_TIME_STEPS },
{
    if requested < MAX_TIME_STEPS {
        requested
    } else {
        MAX_TIME_STEPS
    }
}

/// Receiver — a grid cell whose pressure history is recorded.
#[derive(Clone, Copy, Debug, PartialEq, Eq, Structural)]
pub struct DwmReceiver {
    /// Grid x-index.
    pub ix: usize,
    /// Grid y-index.
    pub iy: usize,
    /// Grid z-index.
    pub iz: usize,
}

/// Whether `(x, y, z)` lies inside an `nx × ny × nz` grid.
pub open spec fn in_grid3(x: int, y: int, z: int, nx: int, ny: int, nz: int) -> bool {
    0 <= x < nx && 0 <= y < ny && 0 <= z < nz
}

/// Row-major node index.
pub open spec fn spec_idx(x: int, y: int, z: int, nx: int, ny: int) -> int {
    (z * ny + y) * nx + x
}

/// The row-major index of an in-grid node is below the node count.
pub proof fn lemma_idx_bounds(x: int, y: int, z: int, nx: int, ny: int, nz: int)
    requires
        in_grid3(x, y, z, nx, ny, nz),
    ensures
        0 <= spec_idx(x, y, z, nx, ny) < nx * ny * nz,
        0 <= z * ny + y < ny * nz,
{
    assert(z * ny + y < ny * nz) by (nonlinear_arith)
        requires
            0 <= y < ny,
            0 <= z < nz,
    ;
    assert(0 <= z * ny + y) by (nonlinear_arith)
        requires
            0 <= y,
            0 <= z,
            0 <= ny,
    ;
    let r = z * ny + y;
    assert(r * nx + x < nx * ny * nz) by (nonlinear_arith)
        requires
            0 <= x < nx,
            0 <= r < ny * nz,
    ;
    assert(0 <= r * nx + x) by (nonlinear_arith)
        requires
            0 <= x < nx,
            0 <= r,
    ;
}

/// Distinct in-grid nodes have distinct indices.
pub proof fn lemma_idx_injective(
    x1: int,
    y1: int,
    z1: int,
    x2: int,
    y2: int,
    z2: int,
    nx: int,
    ny: int,
    nz: int,
)
    requires
        in_grid3(x1, y1, z1, nx, ny, nz),
        in_grid3(x2, y2, z2, nx, ny, nz),
        spec_idx(x1, y1, z1, nx, ny) == spec_idx(x2, y2, z2, nx, ny),
    ensures
        x1 == x2 && y1 == y2 && z1 == z2,
{
    let r1 = z1 * ny + y1;
    let r2 = z2 * ny + y2;
    lemma_idx_bounds(x1, y1, z1, nx, ny, nz);
    lemma_idx_bounds(x2, y2, z2, nx, ny, nz);
    lemma_row_split(r1, x1, r2, x2, nx);
    lemma_row_split(z1, y1, z2, y2, ny);
}

/// `a · n + b` with `0 ≤ b < n` determines `a` and `b`.
proof fn lemma_row_split(a1: int, b1: int, a2: int, b2: int, n: int)
    requires
        0 <= b1 < n,
        0 <= b2 < n,
        0 <= a1,
        0 <= a2,
        a1 * n + b1 == a2 * n + b2,
    ensures
        a1 == a2,
        b1 == b2,
{
    if a1 < a2 {
        assert((a1 + 1) * n <= a2 * n) by (nonlinear_arith)
            requires
                a1 + 1 <= a2,
                n > 0,
        ;
        assert((a1 + 1) * n == a1 * n + n) by (nonlinear_arith);
    } else if a2 < a1 {
        assert((a2 + 1) * n <= a1 * n) by (nonlinear_arith)
            requires
                a2 + 1 <= a1,
                n > 0,
        ;
        assert((a2 + 1) * n == a2 * n + n) by (nonlinear_arith);
    }
}

/// Row-major index of node `(x, y, z)`.
pub fn idx(x: usize, y: usize, z: usize, nx: usize, ny: usize) -> (r: usize)
    requires
        x < nx,
        y < ny,
        spec_idx(x as int, y as int, z as int, nx as int, ny as int) <= usize::MAX,
    ensures
        r == spec_idx(x as int, y as int, z as int, nx as int, ny as int),
{
    proof {
        assert(z * ny + y <= (z * ny + y) * nx) by (nonlinear_arith)
            requires
                nx >= 1,
                z * ny + y >= 0,
        ;
        assert(z * ny >= 0) by (nonlinear_arith)
            requires
                z >= 0,
                ny >= 0,
        ;
    }
    (z * ny + y) * nx + x
}

/// Number of grid cells the solver runs on, or `None` when the grid is too
/// small along some axis (fewer than 3 cells) or larger than
/// [`MAX_DWM_GRID_CELLS`] in total.
pub fn dwm_grid_cells(nx: usize, ny: usize, nz: usize) -> (r: Option<usize>)
    ensures
        r is Some <==> (nx >= MIN_DWM_EXTENT && ny >= MIN_DWM_EXTENT && nz >= MIN_DWM_EXTENT
            && nx * ny * nz <= MAX_DWM_GRID_CELLS),
        r matches Some(n) ==> n == nx * ny * nz,
{
    if nx < MIN_DWM_EXTENT || ny < MIN_DWM_EXTENT || nz < MIN_DWM_EXTENT {
        return None;
    }
    proof {
        assert(nx * ny * nz >= nx * ny) by (nonlinear_arith)
            requires
                nz >= 1,
                nx * ny >= 0,
        ;
    }
    let nxy = match nx.checked_mul(ny) {
        Some(v) => v,
        None => {
            return None;
        },
    };
    if nxy > MAX_DWM_GRID_CELLS {
        return None;
    }
    match nxy.checked_mul(nz) {
        Some(n) => if n > MAX_DWM_GRID_CELLS {
            None
        } else {
            Some(n)
        },
        None => None,
    }
}

impl DwmReceiver {
    /// Whether the receiver's cell lies inside an `nx × ny × nz` grid.
    pub fn in_grid(&self, nx: usize, ny: usize, nz: usize) -> (r: bool)
        ensures
            r == in_grid3(self.ix as int, self.iy as int, self.iz as int, nx as int, ny as int, nz as int),
    {
        self.ix < nx && self.iy < ny && self.iz < nz
    }
}

/// Whether cell `(x, y, z)` lies inside the grid.
pub fn cell_in_grid(x: usize, y: usize, z: usize, nx: usize, ny: usize, nz: usize) -> (r: bool)
    ensures
        r == in_grid3(x as int, y as int, z as int, nx as int, ny as int, nz as int),
{
    x < nx && y < ny && z < nz
}

/// For each receiver, the index of its node, or `None` when it lies outside
/// the grid (such a receiver records nothing).
pub fn receiver_nodes(receivers: &[DwmReceiver], nx: usize, ny: usize, nz: usize) -> (r: Vec<Option<usize>>)
    requires
        nx * ny * nz <= usize::MAX,
    ensures
        r@.len() == receivers@.len(),
        forall|i: int|
            0 <= i < r@.len() ==> #[trigger] r@[i] == if in_grid3(
                receivers@[i].ix as int,
                receivers@[i].iy as int,
                receivers@[i].iz as int,
                nx as int,
                ny as int,
                nz as int,
            ) {
                Some(
                    spec_idx(
                        receivers@[i].ix as int,
                        receivers@[i].iy as int,
                        receivers@[i].iz as int,
                        nx as int,
                        ny as int,
                    ) as usize,
                )
            } else {
                None::<usize>
            },
{
    let mut out: Vec<Option<usize>> = Vec::new();
    let mut i: usize = 0;
    while i < receivers.len()
        invariant
            i <= receivers@.len(),
            out@.len() == i,
            nx * ny * nz <= usize::MAX,
            forall|j: int|
                0 <= j < i ==> #[trigger] out@[j] == if in_grid3(
                    receivers@[j].ix as int,
                    receivers@[j].iy as int,
                    receivers@[j].iz as int,
                    nx as int,
                    ny as int,
                    nz as int,
                ) {
                    Some(
                        spec_idx(
                            receivers@[j].ix as int,
                            receivers@[j].iy as int,
                            receivers@[j].iz as int,
                            nx as int,
                            ny as int,
                        ) as usize,
                    )
                } else {
                    None::<usize>
                },
        decreases receivers@.len() - i,
    {
        let rx = receivers[i];
        if rx.in_grid(nx, ny, nz) {
            proof {
                lemma_idx_bounds(rx.ix as int, rx.iy as int, rx.iz as int, nx as int, ny as int, nz as int);
            }
            let node = idx(rx.ix, rx.iy, rx.iz, nx, ny);
            out.push(Some(node));
        } else {
            out.push(None);
        }
        i = i + 1;
    }
    out
}

/// The six faces of the box.
#[derive(Clone, Copy, Debug, PartialEq, Eq, Structural)]
pub enum Face {
    /// Left face, `x = 0`.
    XNeg,
    /// Right face, `x = nx − 1`.
    XPos,
    /// Floor, `y = 0`.
    YNeg,
    /// Ceiling, `y = ny − 1`.
    YPos,
    /// Back face, `z = 0`.
    ZNeg,
    /// Front face, `z = nz − 1`.
    ZPos,
}

/// Where the wave a node receives from one direction comes from.
#[derive(Clone, Copy, Debug, PartialEq, Eq, Structural)]
pub enum Incoming {
    /// The neighbour's outgoing wave, at this index of the outgoing buffer.
    Neighbour {
        /// Index `neighbour · 6 + port` in the outgoing-wave buffer.
        index: usize,
    },
    /// The node lies on a face: its own outgoing wave toward that face,
    /// reflected through the face's filter.
    Boundary {
        /// The face the wave reflects from.
        face: Face,
        /// Index of this boundary cell's filter state on the face.
        state_index: usize,
        /// Index `node · 6 + port` of the node's own outgoing wave toward the face.
        outgoing_index: usize,
    },
}

/// The port opposite to `d` (the one facing back along the same axis).
pub open spec fn opposite(d: int) -> int {
    if d % 2 == 0 {
        d + 1
    } else {
        d - 1
    }
}

/// Unit step along direction `d` on each axis.
pub open spec fn step_x(d: int) -> int {
    if d == 0 {
        1
    } else if d == 1 {
        -1
    } else {
        0
    }
}

pub open spec fn step_y(d: int) -> int {
    if d == 2 {
        1
    } else if d == 3 {
        -1
    } else {
        0
    }
}

pub open spec fn step_z(d: int) -> int {
    if d == 4 {
        1
    } else if d == 5 {
        -1
    } else {
        0
    }
}

/// The face that lies in direction `d`.
pub open spec fn face_of(d: int) -> Face {
    if d == 0 {
        Face::XPos
    } else if d == 1 {
        Face::XNeg
    } else if d == 2 {
        Face::YPos
    } else if d == 3 {
        Face::YNeg
    } else if d == 4 {
        Face::ZPos
    } else {
        Face::ZNeg
    }
}

/// Index of a boundary cell's filter state on the face in direction `d`:
/// faces normal to x are indexed by `z · ny + y`, faces normal to y by
/// `z · nx + x`, faces normal to z by `y · nx + x`.
pub open spec fn face_state_index(x: int, y: int, z: int, nx: int, ny: int, d: int) -> int {
    if d == 0 || d == 1 {
        z * ny + y
    } else if d == 2 || d == 3 {
        z * nx + x
    } else {
        y * nx + x
    }
}

/// Number of boundary cells on the face in direction `d`.
pub open spec fn face_cells(nx: int, ny: int, nz: int, d: int) -> int {
    if d == 0 || d == 1 {
        ny * nz
    } else if d == 2 || d == 3 {
        nx * nz
    } else {
        nx * ny
    }
}

/// Where node `(x, y, z)` takes its incoming wave from direction `d`.
pub open spec fn incoming_spec(x: int, y: int, z: int, nx: int, ny: int, nz: int, d: int) -> Incoming {
    let qx = x + step_x(d);
    let qy = y + step_y(d);
    let qz = z + step_z(d);
    if in_grid3(qx, qy, qz, nx, ny, nz) {
        Incoming::Neighbour {
            index: (spec_idx(qx, qy, qz, nx, ny) * DWM_PORTS + opposite(d)) as usize,
        }
    } else {
        Incoming::Boundary {
            face: face_of(d),
            state_index: face_state_index(x, y, z, nx, ny, d) as usize,
            outgoing_index: (spec_idx(x, y, z, nx, ny) * DWM_PORTS + d) as usize,
        }
    }
}

/// Where node `(x, y, z)` takes its incoming wave from direction `dir`
/// (`0 = +x, 1 = −x, 2 = +y, 3 = −y, 4 = +z, 5 = −z`). Every index returned
/// lies inside the buffer it addresses.
pub fn incoming_wave(x: usize, y: usize, z: usize, nx: usize, ny: usize, nz: usize, dir: usize) -> (r: Incoming)
    requires
        x < nx,
        y < ny,
        z < nz,
        dir < DWM_PORTS,
        nx * ny * nz * DWM_PORTS <= usize::MAX,
    ensures
        r == incoming_spec(x as int, y as int, z as int, nx as int, ny as int, nz as int, dir as int),
        r matches Incoming::Neighbour { index } ==> index < nx * ny * nz * DWM_PORTS,
        r matches Incoming::Boundary { state_index, outgoing_index, .. } ==> state_index < face_cells(
            nx as int,
            ny as int,
            nz as int,
            dir as int,
        ) && outgoing_index < nx * ny * nz * DWM_PORTS,
        r matches Incoming::Boundary { face, outgoing_index, .. } ==> face == face_of(dir as int)
            && outgoing_index / 6 == (z * ny + y) * nx + x && outgoing_index % 6 == dir,
        r matches Incoming::Neighbour { index } ==> index % 6 == opposite(dir as int) && index / 6 == ((z
            + step_z(dir as int)) * ny + (y + step_y(dir as int))) * nx + (x + step_x(dir as int)),
{
    proof {
        lemma_incoming_slots(x as int, y as int, z as int, nx as int, ny as int, nz as int, dir as int);
    }
    let ghost n = nx * ny * nz;
    proof {
        lemma_idx_bounds(x as int, y as int, z as int, nx as int, ny as int, nz as int);
        assert(n * DWM_PORTS <= usize::MAX);
        assert(n <= usize::MAX) by (nonlinear_arith)
            requires
                n * 6 <= usize::MAX,
                n >= 0,
        ;
    }
    let (qx, qy, qz, inside) = if dir == 0 {
        if x + 1 < nx { (x + 1, y, z, true) } else { (x, y, z, false) }
    } else if dir == 1 {
        if x > 0 { (x - 1, y, z, true) } else { (x, y, z, false) }
    } else if dir == 2 {
        if y + 1 < ny { (x, y + 1, z, true) } else { (x, y, z, false) }
    } else if dir == 3 {
        if y > 0 { (x, y - 1, z, true) } else { (x, y, z, false) }
    } else if dir == 4 {
        if z + 1 < nz { (x, y, z + 1, true) } else { (x, y, z, false) }
    } else {
        if z > 0 { (x, y, z - 1, true) } else { (x, y, z, false) }
    };
    let opp = if dir % 2 == 0 { dir + 1 } else { dir - 1 };
    if inside {
        proof {
            lemma_idx_bounds(qx as int, qy as int, qz as int, nx as int, ny as int, nz as int);
            let q = spec_idx(qx as int, qy as int, qz as int, nx as int, ny as int);
            assert(q * 6 + opp < n * 6) by (nonlinear_arith)
                requires
                    0 <= q < n,
                    opp < 6,
            ;
        }
        let q = idx(qx, qy, qz, nx, ny);
        Incoming::Neighbour { index: q * DWM_PORTS + opp }
    } else {
        let face = if dir == 0 {
            Face::XPos
        } else if dir == 1 {
            Face::XNeg
        } else if dir == 2 {
            Face::YPos
        } else if dir == 3 {
            Face::YNeg
        } else if dir == 4 {
            Face::ZPos
        } else {
            Face::ZNeg
        };
        proof {
            assert(z * ny + y < ny * nz);
            assert(z * nx + x < nx * nz) by (nonlinear_arith)
                requires
                    x < nx,
                    z < nz,
            ;
            assert(y * nx + x < nx * ny) by (nonlinear_arith)
                requires
                    x < nx,
                    y < ny,
            ;
            assert(ny * nz <= n && nx * nz <= n && nx * ny <= n) by (nonlinear_arith)
                requires
                    n == nx * ny * nz,
                    nx >= 1,
                    ny >= 1,
                    nz >= 1,
            ;
            let p = spec_idx(x as int, y as int, z as int, nx as int, ny as int);
            assert(p * 6 + dir < n * 6) by (nonlinear_arith)
                requires
                    0 <= p < n,
                    dir < 6,
            ;
        }
        let state_index = if dir < 2 {
            z * ny + y
        } else if dir < 4 {
            z * nx + x
        } else {
            y * nx + x
        };
        let node = idx(x, y, z, nx, ny);
        Incoming::Boundary { face, state_index, outgoing_index: node * DWM_PORTS + dir }
    }
}

/// Reciprocity of the mesh: the wave a node emits toward direction `d` is
/// the one its neighbour in that direction receives from the opposite
/// direction.
pub proof fn lemma_incoming_reciprocal(x: int, y: int, z: int, nx: int, ny: int, nz: int, d: int)
    requires
        0 <= d < 6,
        in_grid3(x, y, z, nx, ny, nz),
        in_grid3(x + step_x(d), y + step_y(d), z + step_z(d), nx, ny, nz),
    ensures
        incoming_spec(x + step_x(d), y + step_y(d), z + step_z(d), nx, ny, nz, opposite(d))
            == (Incoming::Neighbour { index: (spec_idx(x, y, z, nx, ny) * DWM_PORTS + d) as usize }),
{
    let od = opposite(d);
    assert(opposite(od) == d);
    assert(x + step_x(d) + step_x(od) == x);
    assert(y + step_y(d) + step_y(od) == y);
    assert(z + step_z(d) + step_z(od) == z);
}

/// Distinct boundary cells on the same face use distinct filter states:
/// the face's state index is a one-to-one labelling of its cells.
pub proof fn lemma_face_state_injective(
    x1: int,
    y1: int,
    z1: int,
    x2: int,
    y2: int,
    z2: int,
    nx: int,
    ny: int,
    nz: int,
    d: int,
)
    requires
        0 <= d < 6,
        in_grid3(x1, y1, z1, nx, ny, nz),
        in_grid3(x2, y2, z2, nx, ny, nz),
        !in_grid3(x1 + step_x(d), y1 + step_y(d), z1 + step_z(d), nx, ny, nz),
        !in_grid3(x2 + step_x(d), y2 + step_y(d), z2 + step_z(d), nx, ny, nz),
        face_state_index(x1, y1, z1, nx, ny, d) == face_state_index(x2, y2, z2, nx, ny, d),
    ensures
        x1 == x2 && y1 == y2 && z1 == z2,
{
    if d == 0 || d == 1 {
        lemma_row_split(z1, y1, z2, y2, ny);
    } else if d == 2 || d == 3 {
        lemma_row_split(z1, x1, z2, x2, nx);
    } else {
        lemma_row_split(y1, x1, y2, x2, nx);
    }
}

/// The slots an incoming wave is read from: on a face, the node's own
/// outgoing slot toward that face (slot `node · 6 + dir`, so dividing by 6
/// gives back the node itself); inside the mesh, the neighbour's slot that
/// points back at the node (port `opposite(dir)` of the adjacent node).
pub proof fn lemma_incoming_slots(x: int, y: int, z: int, nx: int, ny: int, nz: int, d: int)
    requires
        in_grid3(x, y, z, nx, ny, nz),
        0 <= d < 6,
        nx * ny * nz * 6 <= usize::MAX,
    ensures
        incoming_spec(x, y, z, nx, ny, nz, d) matches Incoming::Boundary { face, outgoing_index, .. } ==> face
            == face_of(d) && outgoing_index / 6 == (z * ny + y) * nx + x && outgoing_index % 6 == d,
        incoming_spec(x, y, z, nx, ny, nz, d) matches Incoming::Neighbour { index } ==> index % 6 == opposite(d)
            && index / 6 == ((z + step_z(d)) * ny + (y + step_y(d))) * nx + (x + step_x(d)),
{
    lemma_idx_bounds(x, y, z, nx, ny, nz);
    let n = nx * ny * nz;
    let p = spec_idx(x, y, z, nx, ny);
    assert(p * 6 + d < n * 6) by (nonlinear_arith)
        requires
            0 <= p < n,
            0 <= d < 6,
    ;
    vstd::arithmetic::div_mod::lemma_fundamental_div_mod_converse(p * 6 + d, 6, p, d);
    let qx = x + step_x(d);
    let qy = y + step_y(d);
    let qz = z + step_z(d);
    if in_grid3(qx, qy, qz, nx, ny, nz) {
        lemma_idx_bounds(qx, qy, qz, nx, ny, nz);
        let q = spec_idx(qx, qy, qz, nx, ny);
        assert(0 <= opposite(d) < 6);
        assert(q * 6 + opposite(d) < n * 6) by (nonlinear_arith)
            requires
                0 <= q < n,
                0 <= opposite(d) < 6,
        ;
        vstd::arithmetic::div_mod::lemma_fundamental_div_mod_converse(q * 6 + opposite(d), 6, q, opposite(d));
    }
}

/// Different boundary reflections never share an outgoing slot: each
/// (node, direction) pair on a face reads its own slot.
pub proof fn lemma_boundary_slots_distinct(
    x1: int,
    y1: int,
    z1: int,
    d1: int,
    x2: int,
    y2: int,
    z2: int,
    d2: int,
    nx: int,
    ny: int,
    nz: int,
)
    requires
        in_grid3(x1, y1, z1, nx, ny, nz),
        in_grid3(x2, y2, z2, nx, ny, nz),
        0 <= d1 < 6,
        0 <= d2 < 6,
        nx * ny * nz * 6 <= usize::MAX,
        incoming_spec(x1, y1, z1, nx, ny, nz, d1) is Boundary,
        incoming_spec(x2, y2, z2, nx, ny, nz, d2) is Boundary,
        incoming_spec(x1, y1, z1, nx, ny, nz, d1)->outgoing_index == incoming_spec(
            x2,
            y2,
            z2,
            nx,
            ny,
            nz,
            d2,
        )->outgoing_index,
    ensures
        x1 == x2 && y1 == y2 && z1 == z2 && d1 == d2,
{
    lemma_incoming_slots(x1, y1, z1, nx, ny, nz, d1);
    lemma_incoming_slots(x2, y2, z2, nx, ny, nz, d2);
    lemma_idx_injective(x1, y1, z1, x2, y2, z2, nx, ny, nz);
}

} // verus!
