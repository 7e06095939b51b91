//! Reflection-index bookkeeping for the image-source method.
//!
//! In a shoebox room each image source is identified by how many times the
//! path reflects along each axis, a signed triple `(nx, ny, nz)`: the sign
//! says toward which wall the first bounce goes, and the reflection order is
//! `|nx| + |ny| + |nz|`. The image sources up to order `N` are all triples
//! with `1 ≤ |nx| + |ny| + |nz| ≤ N` (order 0 is the direct path), visited
//! with `nx` outermost and `nz` innermost, each running from `−N` to `N`.

use vstd::prelude::*;

verus! {

/// Highest reflection order enumerated for a shoebox room.
pub const MAX_SHOEBOX_ORDER: u32 = 20;

/// Highest reflection order enumerated for a general convex room.
pub const MAX_GENERAL_ORDER: u32 = 6;

/// Reflection counts of one image source of a shoebox room.
#[derive(Clone, Copy, Debug, PartialEq, Eq, Structural)]
pub struct ImageIndex {
    /// Signed reflection count along x.
    pub nx: i32,
    /// Signed reflection count along y.
    pub ny: i32,
    /// Signed reflection count along z.
    pub nz: i32,
    /// Reflection order `|nx| + |ny| + |nz|`.
    pub order: u32,
}

/// Absolute value.
pub open spec fn abs(a: int) -> int {
    if a < 0 {
        -a
    } else {
        a
    }
}

/// The order actually enumerated for a requested shoebox order.
pub open spec fn capped_order(max_order: u32) -> int {
    if max_order < MAX_SHOEBOX_ORDER {
        max_order as int
    } else {
        MAX_SHOEBOX_ORDER as int
    }
}

/// `t` is an image source of order between 1 and `m`, with its order field set.
pub open spec fn in_lattice(t: ImageIndex, m: int) -> bool {
    let o = abs(t.nx as int) + abs(t.ny as int) + abs(t.nz as int);
    1 <= o <= m && t.order == o
}

/// `t` comes strictly before position `(a, b, c)` in the enumeration order.
pub open spec fn before(t: ImageIndex, a: int, b: int, c: int) -> bool {
    t.nx < a || (t.nx == a && (t.ny < b || (t.ny == b && t.nz < c)))
}

/// `s` comes strictly before `t` in the enumeration order.
pub open spec fn enum_lt(s: ImageIndex, t: ImageIndex) -> bool {
    before(s, t.nx as int, t.ny as int, t.nz as int)
}

/// The image sources of a shoebox room of orders `1..=min(max_order, 20)`,
/// in enumeration order: exactly the triples of that order range, each
/// once, with `nx` varying slowest and `nz` fastest.
pub fn image_source_lattice(max_order: u32) -> (r: Vec<ImageIndex>)
    ensures
        forall|i: int| 0 <= i < r@.len() ==> in_lattice(#[trigger] r@[i], capped_order(max_order)),
        forall|i: int, j: int| 0 <= i < j < r@.len() ==> enum_lt(#[trigger] r@[i], #[trigger] r@[j]),
        forall|t: ImageIndex|
            in_lattice(t, capped_order(max_order)) ==> exists|i: int| 0 <= i < r@.len() && #[trigger] r@[i] == t,
{
    let m: i32 = if max_order < MAX_SHOEBOX_ORDER { max_order as i32 } else { MAX_SHOEBOX_ORDER as i32 };
    let ghost mi = m as int;
    let mut r: Vec<ImageIndex> = Vec::new();
    let mut a: i32 = -m;
    while a <= m
        invariant
            mi == capped_order(max_order),
            m == mi,
            0 <= mi <= 20,
            -mi <= a <= mi + 1,
            forall|i: int| 0 <= i < r@.len() ==> in_lattice(#[trigger] r@[i], mi),
            forall|i: int| 0 <= i < r@.len() ==> before(#[trigger] r@[i], a as int, -mi, -mi),
            forall|i: int, j: int| 0 <= i < j < r@.len() ==> enum_lt(#[trigger] r@[i], #[trigger] r@[j]),
            forall|t: ImageIndex|
                in_lattice(t, mi) && before(t, a as int, -mi, -mi) ==> exists|i: int|
                    0 <= i < r@.len() && #[trigger] r@[i] == t,
        decreases mi + 1 - a,
    {
        let mut b: i32 = -m;
        while b <= m
            invariant
                mi == capped_order(max_order),
                m == mi,
                0 <= mi <= 20,
                -mi <= a <= mi,
                -mi <= b <= mi + 1,
                forall|i: int| 0 <= i < r@.len() ==> in_lattice(#[trigger] r@[i], mi),
                forall|i: int| 0 <= i < r@.len() ==> before(#[trigger] r@[i], a as int, b as int, -mi),
                forall|i: int, j: int| 0 <= i < j < r@.len() ==> enum_lt(#[trigger] r@[i], #[trigger] r@[j]),
                forall|t: ImageIndex|
                    in_lattice(t, mi) && before(t, a as int, b as int, -mi) ==> exists|i: int|
                        0 <= i < r@.len() && #[trigger] r@[i] == t,
            decreases mi + 1 - b,
        {
            let mut c: i32 = -m;
            while c <= m
                invariant
                    mi == capped_order(max_order),
                    m == mi,
                    0 <= mi <= 20,
                    -mi <= a <= mi,
                    -mi <= b <= mi,
                    -mi <= c <= mi + 1,
                    forall|i: int| 0 <= i < r@.len() ==> in_lattice(#[trigger] r@[i], mi),
                    forall|i: int| 0 <= i < r@.len() ==> before(#[trigger] r@[i], a as int, b as int, c as int),
                    forall|i: int, j: int|
                        0 <= i < j < r@.len() ==> enum_lt(#[trigger] r@[i], #[trigger] r@[j]),
                    forall|t: ImageIndex|
                        in_lattice(t, mi) && before(t, a as int, b as int, c as int) ==> exists|i: int|
                            0 <= i < r@.len() && #[trigger] r@[i] == t,
                decreases mi + 1 - c,
            {
                let abs_a: u32 = if a < 0 { (-a) as u32 } else { a as u32 };
                let abs_b: u32 = if b < 0 { (-b) as u32 } else { b as u32 };
                let abs_c: u32 = if c < 0 { (-c) as u32 } else { c as u32 };
                let order = abs_a + abs_b + abs_c;
                let ghost old_r = r@;
                if order != 0 && order <= m as u32 {
                    let e = ImageIndex { nx: a, ny: b, nz: c, order };
                    r.push(e);
                    proof {
                        assert(r@.len() == old_r.len() + 1);
                        assert forall|i: int| 0 <= i < old_r.len() implies #[trigger] r@[i] == old_r[i] by {}
                        assert forall|t: ImageIndex|
                            in_lattice(t, mi) && before(t, a as int, b as int, c + 1) implies exists|i: int|
                                0 <= i < r@.len() && #[trigger] r@[i] == t by {
                            if before(t, a as int, b as int, c as int) {
                                let i = choose|i: int| 0 <= i < old_r.len() && old_r[i] == t;
                                assert(r@[i] == t);
                            } else {
                                assert(t == e);
                                assert(r@[old_r.len() as int] == t);
                            }
                        }
                    }
                } else {
                    proof {
                        assert forall|t: ImageIndex|
                            in_lattice(t, mi) && before(t, a as int, b as int, c + 1) implies exists|i: int|
                                0 <= i < r@.len() && #[trigger] r@[i] == t by {
                            if !before(t, a as int, b as int, c as int) {
                                assert(t.nx == a && t.ny == b && t.nz == c);
                                assert(false);
                            }
                        }
                    }
                }
                c = c + 1;
            }
            proof {
                assert forall|t: ImageIndex|
                    in_lattice(t, mi) && before(t, a as int, b + 1, -mi) implies exists|i: int|
                        0 <= i < r@.len() && #[trigger] r@[i] == t by {
                    assert(before(t, a as int, b as int, c as int));
                }
            }
            b = b + 1;
        }
        proof {
            assert forall|t: ImageIndex|
                in_lattice(t, mi) && before(t, a + 1, -mi, -mi) implies exists|i: int|
                    0 <= i < r@.len() && #[trigger] r@[i] == t by {
                assert(before(t, a as int, b as int, -mi));
            }
        }
        a = a + 1;
    }
    proof {
        assert forall|t: ImageIndex| in_lattice(t, capped_order(max_order)) implies exists|i: int|
            0 <= i < r@.len() && #[trigger] r@[i] == t by {
            assert(before(t, a as int, -mi, -mi));
        }
    }
    r
}

/// How many times a path with `n` reflections along one axis hits the wall
/// at coordinate 0 and the wall at the far end: `(neg_hits, pos_hits)`.
/// Bounces alternate between the two walls, starting with the far wall for
/// positive `n` and the near wall for negative `n`.
pub fn axis_wall_hits(n: i32) -> (r: (u32, u32))
    ensures
        n > 0 ==> r == (((n / 2) as u32, ((n + 1) / 2) as u32)),
        n < 0 ==> r == ((((-n) + 1) / 2) as u32, ((-n) / 2) as u32),
        n == 0 ==> r == (0u32, 0u32),
        r.0 + r.1 == abs(n as int),
{
    let abs_n: u32 = if n < 0 {
        if n == i32::MIN { 0x8000_0000u32 } else { (-n) as u32 }
    } else {
        n as u32
    };
    let half_down = abs_n / 2;
    let half_up = abs_n / 2 + abs_n % 2;
    if n > 0 {
        (half_down, half_up)
    } else if n < 0 {
        (half_up, half_down)
    } else {
        (0, 0)
    }
}

/// How an image source of a general convex room is obtained: by mirroring
/// the source at index `parent` (index 0 is the real source) across wall
/// `wall`. Its reflection order is one more than its parent's.
#[derive(Clone, Copy, Debug, PartialEq, Eq, Structural)]
pub struct ImageDerivation {
    /// Index of the mirrored source in the full list (0 = the real source).
    pub parent: usize,
    /// Index of the wall it is mirrored across.
    pub wall: usize,
    /// Reflection order.
    pub order: u32,
}

/// The order actually enumerated for a requested general-room order.
pub open spec fn capped_general_order(max_order: u32) -> nat {
    if max_order < MAX_GENERAL_ORDER {
        max_order as nat
    } else {
        MAX_GENERAL_ORDER as nat
    }
}

/// Number of image sources of order `k` with `w` walls: `w^k`.
pub open spec fn level_size(w: nat, k: nat) -> nat
    decreases k,
{
    if k == 0 {
        1
    } else {
        level_size(w, (k - 1) as nat) * w
    }
}

/// Index in the full list of the first source of order `k`.
pub open spec fn level_start(w: nat, k: nat) -> nat
    decreases k,
{
    if k == 0 {
        0
    } else {
        level_start(w, (k - 1) as nat) + level_size(w, (k - 1) as nat)
    }
}

/// The `j`-th source of order `k`: source `j / w` of order `k − 1`
/// mirrored across wall `j mod w`.
pub open spec fn derivation_at(w: nat, k: nat, j: nat) -> ImageDerivation {
    ImageDerivation {
        parent: (level_start(w, (k - 1) as nat) + j / w) as usize,
        wall: (j % w) as usize,
        order: k as u32,
    }
}

/// The derivations of all image sources of orders `1..=k`, order by order;
/// within an order, parents in list order, and for each parent the walls
/// in wall order.
pub open spec fn derivations_upto(w: nat, k: nat) -> Seq<ImageDerivation>
    decreases k,
{
    if k == 0 {
        Seq::empty()
    } else {
        derivations_upto(w, (k - 1) as nat) + Seq::new(level_size(w, k), |j: int| derivation_at(w, k, j as nat))
    }
}

proof fn lemma_derivations_len(w: nat, k: nat)
    ensures
        derivations_upto(w, k).len() + 1 == level_start(w, k + 1),
    decreases k,
{
    assert(level_start(w, k + 1) == level_start(w, k) + level_size(w, k));
    if k > 0 {
        lemma_derivations_len(w, (k - 1) as nat);
    } else {
        assert(level_start(w, 0) == 0);
        assert(level_size(w, 0) == 1);
    }
}

proof fn lemma_levels_grow(w: nat, k: nat, k2: nat)
    requires
        k <= k2,
    ensures
        level_start(w, k) <= level_start(w, k2),
        k < k2 ==> level_start(w, k) + level_size(w, k) <= level_start(w, k2),
    decreases k2,
{
    if k < k2 {
        lemma_levels_grow(w, k, (k2 - 1) as nat);
    }
}

/// The derivations of the image sources of a general convex room with
/// `num_walls` walls, up to order `min(max_order, 6)`. Entry `i`
/// describes source `i + 1` of the full list, whose entry 0 is the real
/// source; every parent index refers to an earlier source.
pub fn image_derivations(num_walls: usize, max_order: u32) -> (r: Vec<ImageDerivation>)
    requires
        level_start(num_walls as nat, capped_general_order(max_order) + 1) <= usize::MAX,
    ensures
        r@ == derivations_upto(num_walls as nat, capped_general_order(max_order)),
        forall|i: int| 0 <= i < r@.len() ==> (#[trigger] r@[i]).parent <= i && r@[i].wall < num_walls,
        r@.len() + 1 == level_start(num_walls as nat, capped_general_order(max_order) + 1),
        forall|i: int|
            0 <= i < r@.len() ==> (#[trigger] r@[i]).parent == i / (num_walls as int) && r@[i].wall == i % (
            num_walls as int),
        forall|i: int|
            0 <= i < r@.len() ==> (#[trigger] r@[i]).order == if i < num_walls {
                1
            } else {
                r@[i / (num_walls as int) - 1].order + 1
            },
{
    proof {
        let mc = capped_general_order(max_order);
        lemma_derivations_len(num_walls as nat, mc);
        if num_walls >= 1 {
            assert forall|i: int| 0 <= i < derivations_upto(num_walls as nat, mc).len() implies {
                let d = #[trigger] derivations_upto(num_walls as nat, mc)[i];
                &&& d.parent == i / (num_walls as int)
                &&& d.wall == i % (num_walls as int)
                &&& d.order == if i < num_walls {
                    1
                } else {
                    derivations_upto(num_walls as nat, mc)[i / (num_walls as int) - 1].order + 1
                }
            } by {
                lemma_derivation_shape(num_walls as nat, mc, i);
            }
        } else {
            lemma_no_walls_no_images(mc);
        }
    }
    let m: u32 = if max_order < MAX_GENERAL_ORDER { max_order } else { MAX_GENERAL_ORDER };
    let ghost w = num_walls as nat;
    let ghost mm = capped_general_order(max_order);
    let mut r: Vec<ImageDerivation> = Vec::new();
    let mut prev_start: usize = 0;
    let mut prev_size: usize = 1;
    let mut k: u32 = 1;
    proof {
        lemma_levels_grow(w, 1, mm + 1);
    }
    while k <= m
        invariant
            m as nat == mm,
            mm <= 6,
            w == num_walls,
            1 <= k <= m + 1,
            level_start(w, mm + 1) <= usize::MAX,
            prev_start == level_start(w, (k - 1) as nat),
            prev_size == level_size(w, (k - 1) as nat),
            r@ == derivations_upto(w, (k - 1) as nat),
            forall|i: int| 0 <= i < r@.len() ==> (#[trigger] r@[i]).parent <= i && r@[i].wall < num_walls,
        decreases m + 1 - k,
    {
        let ghost kk = k as nat;
        let ghost base = r@;
        proof {
            lemma_derivations_len(w, (kk - 1) as nat);
            lemma_levels_grow(w, kk + 1, mm + 1);
            lemma_levels_grow(w, kk, kk + 1);
            assert(level_start(w, kk + 1) == level_start(w, kk) + level_size(w, kk));
            assert(level_size(w, kk) == prev_size * w);
        }
        let mut p: usize = 0;
        while p < prev_size
            invariant
                w == num_walls,
                kk == k,
                1 <= k <= m,
                m as nat == mm,
                mm <= 6,
                prev_start == level_start(w, (kk - 1) as nat),
                prev_size == level_size(w, (kk - 1) as nat),
                level_start(w, kk) + level_size(w, kk) <= usize::MAX,
                level_start(w, kk) == prev_start + prev_size,
                level_size(w, kk) == prev_size * w,
                base == derivations_upto(w, (kk - 1) as nat),
                base.len() + 1 == level_start(w, kk),
                p <= prev_size,
                r@.len() == base.len() + p * w,
                forall|i: int| 0 <= i < base.len() ==> #[trigger] r@[i] == base[i],
                forall|j: int| 0 <= j < p * w ==> #[trigger] r@[base.len() + j] == derivation_at(w, kk, j as nat),
                forall|i: int| 0 <= i < r@.len() ==> (#[trigger] r@[i]).parent <= i && r@[i].wall < num_walls,
            decreases prev_size - p,
        {
            let mut wi: usize = 0;
            while wi < num_walls
                invariant
                    w == num_walls,
                    kk == k,
                    1 <= k <= m,
                    m as nat == mm,
                    mm <= 6,
                    prev_start == level_start(w, (kk - 1) as nat),
                    prev_size == level_size(w, (kk - 1) as nat),
                    level_start(w, kk) + level_size(w, kk) <= usize::MAX,
                    level_start(w, kk) == prev_start + prev_size,
                    level_size(w, kk) == prev_size * w,
                    base == derivations_upto(w, (kk - 1) as nat),
                    base.len() + 1 == level_start(w, kk),
                    p < prev_size,
                    wi <= num_walls,
                    r@.len() == base.len() + p * w + wi,
                    forall|i: int| 0 <= i < base.len() ==> #[trigger] r@[i] == base[i],
                    forall|j: int|
                        0 <= j < p * w + wi ==> #[trigger] r@[base.len() + j] == derivation_at(w, kk, j as nat),
                    forall|i: int| 0 <= i < r@.len() ==> (#[trigger] r@[i]).parent <= i && r@[i].wall < num_walls,
                decreases num_walls - wi,
            {
                let ghost j = p * w + wi;
                proof {
                    vstd::arithmetic::div_mod::lemma_fundamental_div_mod_converse(j as int, w as int, p as int, wi as int);
                    assert(p * w + wi < prev_size * w) by (nonlinear_arith)
                        requires
                            p < prev_size,
                            wi < w,
                    ;
                    assert(prev_start + p < usize::MAX);
                }
                let d = ImageDerivation { parent: prev_start + p, wall: wi, order: k };
                proof {
                    assert(d == derivation_at(w, kk, j as nat));
                    assert(d.parent <= r@.len());
                }
                r.push(d);
                wi = wi + 1;
                proof {
                    assert(p * w + wi == j + 1);
                    assert forall|jj: int| 0 <= jj < p * w + wi implies #[trigger] r@[base.len() + jj]
                        == derivation_at(w, kk, jj as nat) by {
                        if jj < j {
                        } else {
                            assert(jj == j);
                        }
                    }
                }
            }
            p = p + 1;
            proof {
                assert(p * w == (p - 1) * w + w) by (nonlinear_arith);
            }
        }
        proof {
            assert(p * w == level_size(w, kk));
            assert(r@ =~= derivations_upto(w, kk)) by {
                let tail = Seq::new(level_size(w, kk), |j: int| derivation_at(w, kk, j as nat));
                assert(derivations_upto(w, kk) == base + tail);
                assert forall|i: int| 0 <= i < r@.len() implies #[trigger] r@[i] == (base + tail)[i] by {
                    if i >= base.len() {
                        let j = i - base.len();
                        assert(r@[base.len() + j] == derivation_at(w, kk, j as nat));
                    }
                }
            }
        }
        prev_start = prev_start + prev_size;
        prev_size = prev_size * num_walls;
        k = k + 1;
    }
    r
}

/// The first source of order `k + 1`, less one, is `w` times the first
/// source of order `k`: levels of a complete `w`-ary tree.
proof fn lemma_level_start_step(w: nat, k: nat)
    ensures
        level_start(w, k + 1) == w * level_start(w, k) + 1,
    decreases k,
{
    assert(level_start(w, k + 1) == level_start(w, k) + level_size(w, k));
    if k == 0 {
        assert(level_start(w, 0) == 0);
        assert(level_size(w, 0) == 1);
    } else {
        let km = (k - 1) as nat;
        lemma_level_start_step(w, km);
        assert(level_size(w, k) == level_size(w, km) * w);
        assert(level_start(w, k) == level_start(w, km) + level_size(w, km));
        assert(w * level_start(w, k) == w * level_start(w, km) + w * level_size(w, km)) by (nonlinear_arith)
            requires
                level_start(w, k) == level_start(w, km) + level_size(w, km),
        ;
        assert(level_size(w, km) * w == w * level_size(w, km)) by (nonlinear_arith);
    }
}

/// With no walls there are no image sources beyond the real one.
proof fn lemma_no_walls_no_images(k: nat)
    ensures
        derivations_upto(0, k).len() == 0,
    decreases k,
{
    lemma_derivations_len(0, k);
    lemma_level_start_step(0, k);
}

/// The image sources of a general room form a complete `w`-ary tree numbered
/// level by level: entry `i` (source `i + 1`) mirrors source `i / w` across
/// wall `i mod w`. The first `w` entries mirror the real source (order 1);
/// every later entry has order one more than its parent's, so each order
/// mirrors exactly the sources of the previous order, each across every wall
/// once.
pub proof fn lemma_derivation_shape(w: nat, m: nat, i: int)
    requires
        w >= 1,
        m <= MAX_GENERAL_ORDER,
        level_start(w, m + 1) <= usize::MAX,
        0 <= i < derivations_upto(w, m).len(),
    ensures
        derivations_upto(w, m)[i].parent == i / (w as int),
        derivations_upto(w, m)[i].wall == i % (w as int),
        1 <= derivations_upto(w, m)[i].order <= m,
        i < w ==> derivations_upto(w, m)[i].order == 1,
        i >= w ==> derivations_upto(w, m)[i].order == derivations_upto(w, m)[i / (w as int) - 1].order + 1,
    decreases m,
{
    let wi = w as int;
    let mm = (m - 1) as nat;
    let prev = derivations_upto(w, mm);
    let tail = Seq::new(level_size(w, m), |j: int| derivation_at(w, m, j as nat));
    assert(derivations_upto(w, m) == prev + tail);
    lemma_derivations_len(w, mm);
    lemma_derivations_len(w, m);
    lemma_levels_grow(w, m, m + 1);
    vstd::arithmetic::div_mod::lemma_div_pos_is_pos(i, wi);
    vstd::arithmetic::div_mod::lemma_div_is_ordered_by_denominator(i, 1, wi);
    if i < prev.len() {
        lemma_derivation_shape(w, mm, i);
        if i >= wi {
            vstd::arithmetic::div_mod::lemma_div_is_ordered(wi, i, wi);
            vstd::arithmetic::div_mod::lemma_div_by_self(wi);
            assert(i / wi - 1 < prev.len());
        }
    } else {
        let j = i - prev.len();
        assert(derivations_upto(w, m)[i] == derivation_at(w, m, j as nat));
        lemma_level_start_step(w, mm);
        let s = level_start(w, mm);
        assert(prev.len() == wi * s);
        assert(i == s * wi + j) by (nonlinear_arith)
            requires
                i == wi * s + j,
        ;
        vstd::arithmetic::div_mod::lemma_fundamental_div_mod(j, wi);
        let q = j / wi;
        let r = j % wi;
        assert(i == (s + q) * wi + r) by (nonlinear_arith)
            requires
                i == s * wi + j,
                j == wi * q + r,
        ;
        vstd::arithmetic::div_mod::lemma_fundamental_div_mod_converse(i, wi, s + q, r);
        assert(derivation_at(w, m, j as nat).parent == i / wi);
        assert(derivation_at(w, m, j as nat).wall == i % wi);
        if mm == 0 {
            assert(level_start(w, 0) == 0);
            assert(level_size(w, 1) == level_size(w, 0) * w);
            assert(level_size(w, 0) == 1);
            assert(j < wi);
            assert(i < wi);
        } else {
            lemma_levels_grow(w, 1, mm);
            assert(level_start(w, 1) == level_start(w, 0) + level_size(w, 0));
            assert(level_start(w, 0) == 0 && level_size(w, 0) == 1);
            assert(s >= 1);
            assert(i >= wi) by (nonlinear_arith)
                requires
                    i == s * wi + j,
                    s >= 1,
                    j >= 0,
                    wi >= 1,
            ;
            // The parent index i / w lies among the sources of order m − 1.
            assert(level_size(w, m) == level_size(w, mm) * w);
            let lp = level_size(w, mm) as int;
            assert(j < lp * wi);
            assert(q < lp) by (nonlinear_arith)
                requires
                    j == wi * q + r,
                    0 <= r,
                    j < lp * wi,
                    wi >= 1,
            ;
            let pm = (mm - 1) as nat;
            lemma_derivations_len(w, pm);
            let pp = derivations_upto(w, pm);
            let ptail = Seq::new(level_size(w, mm), |jj: int| derivation_at(w, mm, jj as nat));
            assert(prev == pp + ptail);
            assert(pp.len() + 1 == s);
            let k = i / wi - 1;
            assert(k == s + q - 1);
            assert(pp.len() <= k < prev.len());
            assert(prev[k] == derivation_at(w, mm, (k - pp.len()) as nat));
        }
    }
}

} // verus!
