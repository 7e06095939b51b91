use goonj::diffusion::diffusion_dimensions;
use goonj::dwm::{
    cell_in_grid, clamp_time_steps, dwm_grid_cells, idx, incoming_wave, receiver_nodes, DwmReceiver,
    Face, Incoming, MAX_TIME_STEPS,
};
use goonj::fdtd::{fdtd_cell_index, fdtd_cell_update, fdtd_grid_cells, fdtd_receiver_cells, FdtdCell, FdtdReceiver};
use goonj::gfpe::{gfpe_cell, gfpe_grid};

#[test]
fn dwm_idx_row_major() {
    assert_eq!(idx(0, 0, 0, 30, 25), 0);
    assert_eq!(idx(1, 0, 0, 30, 25), 1);
    assert_eq!(idx(0, 1, 0, 30, 25), 30);
    assert_eq!(idx(0, 0, 1, 30, 25), 750);
    assert_eq!(idx(29, 24, 19, 30, 25), 30 * 25 * 20 - 1);
}

#[test]
fn dwm_grid_validation() {
    assert_eq!(dwm_grid_cells(30, 25, 20), Some(15_000));
    assert_eq!(dwm_grid_cells(2, 25, 20), None);
    assert_eq!(dwm_grid_cells(30, 2, 20), None);
    assert_eq!(dwm_grid_cells(30, 25, 2), None);
    assert_eq!(dwm_grid_cells(3, 3, 3), Some(27));
    assert_eq!(dwm_grid_cells(200, 200, 100), Some(4_000_000));
    assert_eq!(dwm_grid_cells(200, 200, 101), None);
    assert_eq!(dwm_grid_cells(usize::MAX, usize::MAX, 3), None);
}

#[test]
fn dwm_receivers_in_and_out_of_grid() {
    let rs = [
        DwmReceiver { ix: 1, iy: 2, iz: 3 },
        DwmReceiver { ix: 30, iy: 0, iz: 0 },
        DwmReceiver { ix: 0, iy: 0, iz: 20 },
    ];
    assert_eq!(receiver_nodes(&rs, 30, 25, 20), vec![Some(3 * 750 + 2 * 30 + 1), None, None]);
    assert!(rs[0].in_grid(30, 25, 20));
    assert!(!rs[1].in_grid(30, 25, 20));
    assert!(cell_in_grid(29, 24, 19, 30, 25, 20));
    assert!(!cell_in_grid(29, 25, 19, 30, 25, 20));
}

#[test]
fn dwm_incoming_interior_neighbours() {
    let (nx, ny, nz) = (4, 5, 6);
    let node = idx(1, 1, 1, nx, ny);
    assert_eq!(incoming_wave(1, 1, 1, nx, ny, nz, 0), Incoming::Neighbour { index: (node + 1) * 6 + 1 });
    assert_eq!(incoming_wave(1, 1, 1, nx, ny, nz, 1), Incoming::Neighbour { index: (node - 1) * 6 });
    assert_eq!(incoming_wave(1, 1, 1, nx, ny, nz, 2), Incoming::Neighbour { index: (node + nx) * 6 + 3 });
    assert_eq!(incoming_wave(1, 1, 1, nx, ny, nz, 3), Incoming::Neighbour { index: (node - nx) * 6 + 2 });
    assert_eq!(
        incoming_wave(1, 1, 1, nx, ny, nz, 4),
        Incoming::Neighbour { index: (node + nx * ny) * 6 + 5 }
    );
    assert_eq!(
        incoming_wave(1, 1, 1, nx, ny, nz, 5),
        Incoming::Neighbour { index: (node - nx * ny) * 6 + 4 }
    );
}

#[test]
fn dwm_incoming_boundary_faces() {
    let (nx, ny, nz) = (4, 5, 6);
    let corner = idx(0, 0, 0, nx, ny);
    assert_eq!(
        incoming_wave(0, 0, 0, nx, ny, nz, 1),
        Incoming::Boundary { face: Face::XNeg, state_index: 0, outgoing_index: corner * 6 + 1 }
    );
    let far = idx(3, 4, 5, nx, ny);
    assert_eq!(
        incoming_wave(3, 4, 5, nx, ny, nz, 0),
        Incoming::Boundary { face: Face::XPos, state_index: 5 * ny + 4, outgoing_index: far * 6 }
    );
    assert_eq!(
        incoming_wave(3, 4, 5, nx, ny, nz, 2),
        Incoming::Boundary { face: Face::YPos, state_index: 5 * nx + 3, outgoing_index: far * 6 + 2 }
    );
    assert_eq!(
        incoming_wave(3, 4, 5, nx, ny, nz, 4),
        Incoming::Boundary { face: Face::ZPos, state_index: 4 * nx + 3, outgoing_index: far * 6 + 4 }
    );
    let floor = idx(2, 0, 3, nx, ny);
    assert_eq!(
        incoming_wave(2, 0, 3, nx, ny, nz, 3),
        Incoming::Boundary { face: Face::YNeg, state_index: 3 * nx + 2, outgoing_index: floor * 6 + 3 }
    );
    let back = idx(2, 3, 0, nx, ny);
    assert_eq!(
        incoming_wave(2, 3, 0, nx, ny, nz, 5),
        Incoming::Boundary { face: Face::ZNeg, state_index: 3 * nx + 2, outgoing_index: back * 6 + 5 }
    );
}

#[test]
fn dwm_incoming_reciprocal_on_grid() {
    let (nx, ny, nz) = (3, 4, 3);
    for z in 0..nz {
        for y in 0..ny {
            for x in 0..nx {
                for d in 0..6 {
                    if let Incoming::Neighbour { index } = incoming_wave(x, y, z, nx, ny, nz, d) {
                        let q = index / 6;
                        let port = index % 6;
                        let back = if d % 2 == 0 { d + 1 } else { d - 1 };
                        assert_eq!(port, back);
                        let (qx, qy, qz) = (q % nx, (q / nx) % ny, q / (nx * ny));
                        assert_eq!(
                            incoming_wave(qx, qy, qz, nx, ny, nz, back),
                            Incoming::Neighbour { index: idx(x, y, z, nx, ny) * 6 + d }
                        );
                    }
                }
            }
        }
    }
}

#[test]
fn time_steps_clamped() {
    assert_eq!(clamp_time_steps(1_102), 1_102);
    assert_eq!(clamp_time_steps(u32::MAX), MAX_TIME_STEPS);
    assert_eq!(clamp_time_steps(0), 0);
}

#[test]
fn fdtd_grid_validation() {
    assert_eq!(fdtd_grid_cells(80, 80), Some(6_400));
    assert_eq!(fdtd_grid_cells(2, 80), None);
    assert_eq!(fdtd_grid_cells(80, 2), None);
    assert_eq!(fdtd_grid_cells(2_000, 2_000), Some(4_000_000));
    assert_eq!(fdtd_grid_cells(2_000, 2_001), None);
    assert_eq!(fdtd_grid_cells(usize::MAX, 3), None);
}

#[test]
fn fdtd_cells_and_receivers() {
    assert_eq!(fdtd_cell_index(3, 2, 10, 5), Some(23));
    assert_eq!(fdtd_cell_index(10, 2, 10, 5), None);
    assert_eq!(fdtd_cell_index(3, 5, 10, 5), None);
    let rs = [FdtdReceiver { ix: 1, iy: 1 }, FdtdReceiver { ix: 0, iy: 9 }];
    assert_eq!(fdtd_receiver_cells(&rs, 10, 5), vec![Some(11), None]);
    assert!(rs[0].in_grid(10, 5));
    assert!(!rs[1].in_grid(10, 5));
}

#[test]
fn fdtd_boundary_rules() {
    let (nx, ny) = (5, 4);
    assert_eq!(fdtd_cell_update(2, 1, nx, ny), FdtdCell::Interior);
    assert_eq!(fdtd_cell_update(2, 0, nx, ny), FdtdCell::Edge { from: nx + 2 });
    assert_eq!(fdtd_cell_update(2, 3, nx, ny), FdtdCell::Edge { from: 2 * nx + 2 });
    assert_eq!(fdtd_cell_update(0, 2, nx, ny), FdtdCell::Edge { from: 2 * nx + 1 });
    assert_eq!(fdtd_cell_update(4, 2, nx, ny), FdtdCell::Edge { from: 2 * nx + 3 });
    assert_eq!(fdtd_cell_update(0, 0, nx, ny), FdtdCell::Corner { a: 1, b: nx });
    assert_eq!(fdtd_cell_update(4, 0, nx, ny), FdtdCell::Corner { a: 3, b: 2 * nx - 1 });
    assert_eq!(fdtd_cell_update(0, 3, nx, ny), FdtdCell::Corner { a: 3 * nx + 1, b: 2 * nx });
    assert_eq!(fdtd_cell_update(4, 3, nx, ny), FdtdCell::Corner { a: 3 * nx + 3, b: 2 * nx + 4 });
}

#[test]
fn gfpe_grid_sizes() {
    assert_eq!(gfpe_grid(100, 200), Some((100, 201)));
    assert_eq!(gfpe_grid(0, 0), Some((2, 2)));
    assert_eq!(gfpe_grid(1, 1), Some((2, 2)));
    assert_eq!(gfpe_grid(10_000, 999), Some((10_000, 1_000)));
    assert_eq!(gfpe_grid(10_000, 1_000), None);
    assert_eq!(gfpe_grid(usize::MAX, 5), None);
}

#[test]
fn gfpe_cell_lookup() {
    assert_eq!(gfpe_cell(2, 3, 5, 10), Some(23));
    assert_eq!(gfpe_cell(5, 3, 5, 10), None);
    assert_eq!(gfpe_cell(2, 10, 5, 10), None);
    assert_eq!(gfpe_cell(0, 0, 0, 0), None);
}

#[test]
fn diffusion_dimensions_at_least_three() {
    assert_eq!(diffusion_dimensions(1, 0), (3, 3));
    assert_eq!(diffusion_dimensions(20, 30), (20, 30));
    assert_eq!(diffusion_dimensions(3, 2), (3, 3));
}

#[test]
fn dwm_face_states_distinct_per_face() {
    let (nx, ny, nz) = (4, 3, 5);
    for d in 0..6 {
        let mut seen = std::collections::HashSet::new();
        for z in 0..nz {
            for y in 0..ny {
                for x in 0..nx {
                    if let Incoming::Boundary { state_index, .. } = incoming_wave(x, y, z, nx, ny, nz, d) {
                        assert!(seen.insert(state_index), "face {d} reuses state {state_index}");
                    }
                }
            }
        }
        let expected = match d {
            0 | 1 => ny * nz,
            2 | 3 => nx * nz,
            _ => nx * ny,
        };
        assert_eq!(seen.len(), expected);
        assert!(seen.iter().all(|&s| s < expected));
    }
}

#[test]
fn fdtd_walls_read_interior_and_corners_read_walls() {
    let (nx, ny) = (6, 4);
    let interior = |c: usize| {
        let (x, y) = (c % nx, c / nx);
        x >= 1 && x <= nx - 2 && y >= 1 && y <= ny - 2
    };
    let mut edges = 0;
    let mut corners = 0;
    for y in 0..ny {
        for x in 0..nx {
            match fdtd_cell_update(x, y, nx, ny) {
                FdtdCell::Interior => assert!(interior(y * nx + x)),
                FdtdCell::Edge { from } => {
                    edges += 1;
                    assert!(interior(from));
                }
                FdtdCell::Corner { a, b } => {
                    corners += 1;
                    for c in [a, b] {
                        assert!(!interior(c));
                        assert!(matches!(fdtd_cell_update(c % nx, c / nx, nx, ny), FdtdCell::Edge { .. }));
                    }
                }
            }
        }
    }
    assert_eq!(corners, 4);
    assert_eq!(edges, 2 * (nx - 2) + 2 * (ny - 2));
}
