//! Velvet-noise pulse placement for Dark Velvet Noise reverberation.
//!
//! A velvet-noise sequence places exactly one ±1 pulse in each fixed-length
//! cell of the output, at a position drawn uniformly within the cell. The
//! position and sign of each pulse come from one xorshift64 draw: the draw
//! modulo the cell length gives the offset, and bit 32 gives the sign. The
//! decay envelope and low-pass colouring are applied to the pulses
//! afterwards, by the caller.

use vstd::prelude::*;
use crate::rng::{Xorshift64, nth_draw, seed_state, state_after};

verus! {

/// Upper bound on a synthesized impulse response: ten minutes at 192 kHz.
pub const MAX_IR_SAMPLES: usize = 115_200_000;

/// One pulse of a velvet-noise sequence.
#[derive(Clone, Copy, Debug, PartialEq, Eq, Structural)]
pub struct VelvetPulse {
    /// Sample index of the pulse.
    pub index: usize,
    /// `true` for a −1 pulse, `false` for a +1 pulse.
    pub negative: bool,
}

/// The cell length actually used: at least one sample per cell.
pub open spec fn effective_cell(cell_len: usize) -> nat {
    if cell_len == 0 {
        1
    } else {
        cell_len as nat
    }
}

/// Number of cells that cover `n` samples with cells of length `c`
/// (the last cell may be shorter): `⌈n / c⌉`.
pub open spec fn num_cells(n: nat, c: nat) -> nat
    recommends
        c > 0,
{
    if n == 0 {
        0
    } else {
        ((n - 1) as nat / c + 1) as nat
    }
}

/// End (exclusive) of cell `i`: the cell is cut short at the end of the output.
pub open spec fn cell_end(n: nat, c: nat, i: nat) -> nat {
    if (i + 1) * c < n {
        ((i + 1) * c) as nat
    } else {
        n
    }
}

/// The pulse placed in cell `i` of an `n`-sample sequence with cell length
/// `cell_len`, driven by a generator seeded with `seed`.
pub open spec fn pulse_at(n: usize, cell_len: usize, seed: u64, i: nat) -> VelvetPulse {
    let c = effective_cell(cell_len);
    let start = i * c;
    let len = cell_end(n as nat, c, i) - start;
    let r = nth_draw(seed, i);
    VelvetPulse {
        index: (start + ((r as usize) as int) % len) as usize,
        negative: (r >> 32u64) & 1u64 == 1u64,
    }
}

/// Clamp a requested impulse-response length to [`MAX_IR_SAMPLES`].
pub fn clamp_ir_length(requested: usize) -> (n: usize)
    ensures
        n == if requested < MAX_IR_SAMPLES { requested } else { MAX_IR_SAMPLES },
{
    if requested < MAX_IR_SAMPLES {
        requested
    } else {
        MAX_IR_SAMPLES
    }
}

/// A cell index is below the cell count exactly when its cell starts
/// inside the output.
proof fn lemma_cell_count(n: nat, c: nat, k: nat)
    requires
        c > 0,
    ensures
        k < num_cells(n, c) <==> k * c < n,
{
    if n > 0 {
        let m = (n - 1) as nat;
        let q = m / c;
        let r = m % c;
        vstd::arithmetic::div_mod::lemma_fundamental_div_mod(m as int, c as int);
        assert(m == q * c + r);
        assert(0 <= r < c);
        if k <= q {
            vstd::arithmetic::mul::lemma_mul_inequality(k as int, q as int, c as int);
        } else {
            vstd::arithmetic::mul::lemma_mul_inequality((q + 1) as int, k as int, c as int);
            assert((q + 1) * c == q * c + c) by (nonlinear_arith);
        }
    } else {
        assert(k * c >= 0) by (nonlinear_arith)
            requires
                c > 0,
        ;
    }
}

/// Length of cell `i` of an `n`-sample output cut into cells of `c`
/// samples: `c`, except for a last cell cut short by the end of the output.
pub open spec fn cell_length(n: nat, c: nat, i: nat) -> int {
    if (i + 1) * c <= n {
        c as int
    } else {
        n - i * c
    }
}

/// The offset of each pulse within its cell is the generator's `i`-th
/// draw reduced modulo the cell's length, and its sign is bit 32 of that
/// draw: the pulse of cell `i` sits at `i·c + (draw mod len)`.
pub proof fn lemma_pulse_offset_is_draw_mod_cell(n: usize, cell_len: usize, seed: u64, i: nat)
    requires
        i < num_cells(n as nat, effective_cell(cell_len)),
    ensures
        pulse_at(n, cell_len, seed, i).index == i * effective_cell(cell_len) + ((nth_draw(seed, i) as usize) as int)
            % cell_length(n as nat, effective_cell(cell_len), i),
        pulse_at(n, cell_len, seed, i).negative == ((nth_draw(seed, i) >> 32u64) & 1u64 == 1u64),
{
    let c = effective_cell(cell_len);
    lemma_cell_count(n as nat, c, i);
    assert((i + 1) * c == i * c + c) by (nonlinear_arith);
    assert(cell_end(n as nat, c, i) - i * c == cell_length(n as nat, c, i));
    let len = cell_length(n as nat, c, i);
    let off = ((nth_draw(seed, i) as usize) as int) % len;
    assert(0 <= off < len);
    assert(i * c + off < n);
}

/// Each pulse lies inside its own cell (and therefore inside the output):
/// exactly one pulse per cell.
pub proof fn lemma_pulse_in_cell(n: usize, cell_len: usize, seed: u64, i: nat)
    requires
        i < num_cells(n as nat, effective_cell(cell_len)),
    ensures
        i * effective_cell(cell_len) <= pulse_at(n, cell_len, seed, i).index,
        pulse_at(n, cell_len, seed, i).index < cell_end(n as nat, effective_cell(cell_len), i),
        pulse_at(n, cell_len, seed, i).index < n,
{
    let c = effective_cell(cell_len);
    lemma_cell_count(n as nat, c, i);
    assert((i + 1) * c == i * c + c) by (nonlinear_arith);
    let start = i * c;
    let len = cell_end(n as nat, c, i) - start;
    assert(len > 0);
    let r = nth_draw(seed, i);
    let off = ((r as usize) as int) % len;
    assert(0 <= off < len);
}

/// Pulses come in strictly increasing sample order.
pub proof fn lemma_pulses_increasing(n: usize, cell_len: usize, seed: u64, i: nat, j: nat)
    requires
        i < j,
        j < num_cells(n as nat, effective_cell(cell_len)),
    ensures
        pulse_at(n, cell_len, seed, i).index < pulse_at(n, cell_len, seed, j).index,
{
    let c = effective_cell(cell_len);
    lemma_cell_count(n as nat, c, j);
    lemma_cell_count(n as nat, c, i);
    lemma_pulse_in_cell(n, cell_len, seed, i);
    lemma_pulse_in_cell(n, cell_len, seed, j);
    vstd::arithmetic::mul::lemma_mul_inequality((i + 1) as int, j as int, c as int);
}

/// Place the pulses of a velvet-noise sequence of `num_samples` samples with
/// cells of `cell_len` samples (a zero length counts as one), from a
/// generator seeded with `seed`. Returns one pulse per cell, in order.
pub fn velvet_pulse_train(num_samples: usize, cell_len: usize, seed: u64) -> (pulses: Vec<VelvetPulse>)
    ensures
        pulses@.len() == num_cells(num_samples as nat, effective_cell(cell_len)),
        pulses@.len() * effective_cell(cell_len) >= num_samples,
        pulses@.len() > 0 ==> (pulses@.len() - 1) * effective_cell(cell_len) < num_samples,
        forall|i: int|
            0 <= i < pulses@.len() ==> #[trigger] pulses@[i] == pulse_at(num_samples, cell_len, seed, i as nat),
        forall|i: int|
            0 <= i < pulses@.len() ==> (#[trigger] pulses@[i]).index < num_samples,
        forall|i: int|
            0 <= i < pulses@.len() ==> (#[trigger] pulses@[i]).index == i * effective_cell(cell_len) + ((
            nth_draw(seed, i as nat) as usize) as int) % cell_length(num_samples as nat, effective_cell(cell_len), i as nat),
        forall|i: int|
            0 <= i < pulses@.len() ==> (#[trigger] pulses@[i]).negative == ((nth_draw(seed, i as nat) >> 32u64)
                & 1u64 == 1u64),
{
    let c: usize = if cell_len == 0 { 1 } else { cell_len };
    let ghost cc = effective_cell(cell_len);
    let mut rng = Xorshift64::new(seed);
    let mut pulses: Vec<VelvetPulse> = Vec::new();
    let mut start: usize = 0;
    assert(pulses@.len() * cc == 0);
    while start < num_samples
        invariant
            c as nat == cc,
            cc == effective_cell(cell_len),
            cc >= 1,
            start <= num_samples,
            start as int == if pulses@.len() * cc < num_samples { (pulses@.len() * cc) as int } else { num_samples as int },
            pulses@.len() <= num_cells(num_samples as nat, cc),
            rng@ == state_after(seed_state(seed), pulses@.len()),
            forall|i: int|
                0 <= i < pulses@.len() ==> #[trigger] pulses@[i] == pulse_at(num_samples, cell_len, seed, i as nat),
            forall|i: int| 0 <= i < pulses@.len() ==> (#[trigger] pulses@[i]).index < num_samples,
        decreases num_samples - start,
    {
        let ghost i = pulses@.len();
        proof {
            lemma_cell_count(num_samples as nat, cc, i);
            assert((i + 1) * cc == i * cc + cc) by (nonlinear_arith);
        }
        let end: usize = if c >= num_samples - start { num_samples } else { start + c };
        let len = end - start;
        let r = rng.next_u64();
        let k = (#[verifier::truncate] (r as usize)) % len;
        let negative = (r >> 32u64) & 1u64 == 1u64;
        let pulse = VelvetPulse { index: start + k, negative };
        proof {
            assert(end == cell_end(num_samples as nat, cc, i));
            assert(r == nth_draw(seed, i));
            let spec_pulse = pulse_at(num_samples, cell_len, seed, i);
            assert(pulse == spec_pulse);
            lemma_cell_count(num_samples as nat, cc, i + 1);
        }
        pulses.push(pulse);
        start = end;
    }
    proof {
        let k = pulses@.len();
        lemma_cell_count(num_samples as nat, cc, k);
        if k > 0 {
            lemma_cell_count(num_samples as nat, cc, (k - 1) as nat);
        }
        if k < num_cells(num_samples as nat, cc) {
            assert(false);
        }
    }
    proof {
        assert forall|i: int| 0 <= i < pulses@.len() implies (#[trigger] pulses@[i]).index == i * effective_cell(
            cell_len,
        ) + ((nth_draw(seed, i as nat) as usize) as int) % cell_length(
            num_samples as nat,
            effective_cell(cell_len),
            i as nat,
        ) && pulses@[i].negative == ((nth_draw(seed, i as nat) >> 32u64) & 1u64 == 1u64) by {
            lemma_pulse_offset_is_draw_mod_cell(num_samples, cell_len, seed, i as nat);
        }
    }
    pulses
}

} // verus!
