use goonj::image_source::{axis_wall_hits, image_derivations, image_source_lattice, ImageDerivation, ImageIndex};

#[test]
fn lattice_order_one_has_six_images() {
    let l = image_source_lattice(1);
    assert_eq!(l.len(), 6);
    assert!(l.iter().all(|t| t.order == 1));
    assert_eq!(l[0], ImageIndex { nx: -1, ny: 0, nz: 0, order: 1 });
    assert_eq!(l[5], ImageIndex { nx: 1, ny: 0, nz: 0, order: 1 });
}

#[test]
fn lattice_order_zero_is_empty() {
    assert!(image_source_lattice(0).is_empty());
}

#[test]
fn lattice_counts_match_octahedral_numbers() {
    for m in 0..=6_u32 {
        let mi = i64::from(m);
        let expected = (2 * mi + 1) * (2 * mi * mi + 2 * mi + 3) / 3 - 1;
        assert_eq!(image_source_lattice(m).len() as i64, expected, "order {m}");
    }
}

#[test]
fn lattice_order_capped_at_twenty() {
    let a = image_source_lattice(20);
    let b = image_source_lattice(100);
    assert_eq!(a, b);
    assert_eq!(a.len(), 41 * (2 * 400 + 40 + 3) / 3 - 1);
    assert!(a.iter().all(|t| t.order >= 1 && t.order <= 20));
}

#[test]
fn lattice_sorted_and_orders_consistent() {
    let l = image_source_lattice(3);
    for w in l.windows(2) {
        assert!((w[0].nx, w[0].ny, w[0].nz) < (w[1].nx, w[1].ny, w[1].nz));
    }
    for t in &l {
        assert_eq!(t.order, t.nx.unsigned_abs() + t.ny.unsigned_abs() + t.nz.unsigned_abs());
    }
}

#[test]
fn wall_hits_alternate() {
    assert_eq!(axis_wall_hits(0), (0, 0));
    assert_eq!(axis_wall_hits(1), (0, 1));
    assert_eq!(axis_wall_hits(2), (1, 1));
    assert_eq!(axis_wall_hits(3), (1, 2));
    assert_eq!(axis_wall_hits(-1), (1, 0));
    assert_eq!(axis_wall_hits(-3), (2, 1));
    assert_eq!(axis_wall_hits(i32::MIN), (1 << 30, 1 << 30));
    assert_eq!(axis_wall_hits(i32::MAX), ((1 << 30) - 1, 1 << 30));
}

#[test]
fn general_derivations_order_two() {
    let d = image_derivations(6, 2);
    assert_eq!(d.len(), 6 + 36);
    assert_eq!(d[0], ImageDerivation { parent: 0, wall: 0, order: 1 });
    assert_eq!(d[5], ImageDerivation { parent: 0, wall: 5, order: 1 });
    assert_eq!(d[6], ImageDerivation { parent: 1, wall: 0, order: 2 });
    assert_eq!(d[41], ImageDerivation { parent: 6, wall: 5, order: 2 });
    for (i, e) in d.iter().enumerate() {
        assert!(e.parent <= i);
    }
}

#[test]
fn general_derivations_capped_at_six() {
    assert_eq!(image_derivations(2, 6).len(), 2 + 4 + 8 + 16 + 32 + 64);
    assert_eq!(image_derivations(2, 50), image_derivations(2, 6));
    assert!(image_derivations(0, 3).is_empty());
    assert!(image_derivations(6, 0).is_empty());
}
