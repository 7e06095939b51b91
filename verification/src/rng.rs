//! Xorshift64 pseudo-random generator used by the stochastic synthesis
//! stages (velvet-noise pulse placement, diffuse-rain jitter).

use vstd::prelude::*;

verus! {

/// State that a zero seed is replaced with: xorshift has the all-zero state
/// as a fixed point, so it must never start there.
pub const ZERO_SEED_REPLACEMENT: u64 = 0x5555_5555_5555_5555u64;

/// One xorshift64 step (shifts 13, 7, 17).
pub open spec fn xorshift_step(x: u64) -> u64 {
    let a = x ^ (x << 13u64);
    let b = a ^ (a >> 7u64);
    b ^ (b << 17u64)
}

/// The state a generator seeded with `seed` starts from.
pub open spec fn seed_state(seed: u64) -> u64 {
    if seed == 0 {
        ZERO_SEED_REPLACEMENT
    } else {
        seed
    }
}

/// The state after `n` steps from `state`.
pub open spec fn state_after(state: u64, n: nat) -> u64
    decreases n,
{
    if n == 0 {
        state
    } else {
        xorshift_step(state_after(state, (n - 1) as nat))
    }
}

/// The `i`-th value (counting from 0) drawn by a generator seeded with `seed`.
pub open spec fn nth_draw(seed: u64, i: nat) -> u64 {
    state_after(seed_state(seed), i + 1)
}

/// The 24 high bits of a draw, which the float sampler scales into `[0, 1)`.
pub open spec fn unit_bits(x: u64) -> u32 {
    (x >> 40u64) as u32
}

/// Xorshift64 PRNG: a 64-bit state, never zero.
pub struct Xorshift64 {
    state: u64,
}

impl View for Xorshift64 {
    type V = u64;

    /// The current state.
    closed spec fn view(&self) -> u64 {
        self.state
    }
}

impl Xorshift64 {
    /// The generator's well-formedness: its state is never zero.
    #[verifier::type_invariant]
    closed spec fn state_nonzero(&self) -> bool {
        self.state != 0
    }

    /// Seed a generator; a zero seed is replaced so the state is non-zero.
    pub fn new(seed: u64) -> (r: Self)
        ensures
            r@ == seed_state(seed),
            r@ != 0,
    {
        Xorshift64 { state: if seed == 0 { ZERO_SEED_REPLACEMENT } else { seed } }
    }

    /// Advance the state by one xorshift step and return the new state.
    pub fn next_u64(&mut self) -> (r: u64)
        ensures
            final(self)@ == xorshift_step(old(self)@),
            r == final(self)@,
            r != 0,
    {
        proof {
            use_type_invariant(&*self);
            lemma_step_nonzero(self.state);
        }
        let mut x = self.state;
        x = x ^ (x << 13u64);
        x = x ^ (x >> 7u64);
        x = x ^ (x << 17u64);
        self.state = x;
        x
    }

    /// Draw the next value and return its 24 high bits (`< 2^24`), the
    /// integer numerator of a uniform sample in `[0, 1)` with step `2^-24`.
    pub fn next_unit_bits(&mut self) -> (r: u32)
        ensures
            final(self)@ == xorshift_step(old(self)@),
            r == unit_bits(final(self)@),
            r < 0x100_0000,
    {
        let x = self.next_u64();
        proof {
            assert((x >> 40u64) < 0x100_0000u64) by (bit_vector);
        }
        (x >> 40u64) as u32
    }
}

/// A non-zero state never steps to zero: a generator never gets stuck on
/// the all-zero fixed point.
pub proof fn lemma_step_nonzero(x: u64)
    requires
        x != 0,
    ensures
        xorshift_step(x) != 0,
{
    assert(x != 0 ==> {
        let a = x ^ (x << 13u64);
        let b = a ^ (a >> 7u64);
        b ^ (b << 17u64) != 0u64
    }) by (bit_vector);
}

/// The xorshift step is linear over bit-wise xor.
proof fn lemma_step_xor(x: u64, y: u64)
    ensures
        xorshift_step(x) ^ xorshift_step(y) == xorshift_step(x ^ y),
{
    assert({
        let ax = x ^ (x << 13u64);
        let bx = ax ^ (ax >> 7u64);
        let ay = y ^ (y << 13u64);
        let by = ay ^ (ay >> 7u64);
        let z = x ^ y;
        let az = z ^ (z << 13u64);
        let bz = az ^ (az >> 7u64);
        (bx ^ (bx << 17u64)) ^ (by ^ (by << 17u64)) == bz ^ (bz << 17u64)
    }) by (bit_vector);
}

/// Distinct states step to distinct states: the step is a permutation, so
/// generators seeded differently never merge into the same stream.
pub proof fn lemma_step_injective(x: u64, y: u64)
    requires
        x != y,
    ensures
        xorshift_step(x) != xorshift_step(y),
{
    lemma_step_xor(x, y);
    assert(x ^ y != 0) by (bit_vector)
        requires
            x != y,
    ;
    lemma_step_nonzero(x ^ y);
    assert(xorshift_step(x) ^ xorshift_step(y) != 0);
    let sx = xorshift_step(x);
    let sy = xorshift_step(y);
    assert(sx ^ sy != 0u64 ==> sx != sy) by (bit_vector);
}

/// Every state reached from a seed is non-zero.
pub proof fn lemma_state_after_nonzero(state: u64, n: nat)
    requires
        state != 0,
    ensures
        state_after(state, n) != 0,
    decreases n,
{
    if n > 0 {
        lemma_state_after_nonzero(state, (n - 1) as nat);
        lemma_step_nonzero(state_after(state, (n - 1) as nat));
    }
}

/// Two generators whose seeds lead to different start states draw different
/// values at every position of their streams.
pub proof fn lemma_different_seeds_differ(seed_a: u64, seed_b: u64, i: nat)
    requires
        seed_state(seed_a) != seed_state(seed_b),
    ensures
        nth_draw(seed_a, i) != nth_draw(seed_b, i),
    decreases i,
{
    if i == 0 {
        lemma_step_injective(seed_state(seed_a), seed_state(seed_b));
        assert(state_after(seed_state(seed_a), 0) == seed_state(seed_a));
        assert(state_after(seed_state(seed_b), 0) == seed_state(seed_b));
    } else {
        let j = (i - 1) as nat;
        lemma_different_seeds_differ(seed_a, seed_b, j);
        lemma_step_injective(nth_draw(seed_a, j), nth_draw(seed_b, j));
        assert(nth_draw(seed_a, i) == xorshift_step(nth_draw(seed_a, j)));
        assert(nth_draw(seed_b, i) == xorshift_step(nth_draw(seed_b, j)));
    }
}

} // verus!
