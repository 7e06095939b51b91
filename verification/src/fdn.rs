//! Delay lines of a feedback delay network (FDN).
//!
//! Each line of an FDN is a circular buffer with a write position. At every
//! sample the network reads each line at the slot just after its write
//! position — the oldest value still stored — and then writes the line's
//! new input at the write position and advances it. A line of length `L`
//! therefore returns what was written `L − 1` samples earlier (one sample
//! earlier for a line of length 1). The feedback matrix and gains that mix
//! the lines act on the values read and are applied by the caller.

use vstd::prelude::*;

verus! {

/// A circular delay buffer holding values of type `T` (audio samples).
#[derive(Clone, Debug)]
pub struct DelayLine<T> {
    buffer: Vec<T>,
    write_pos: usize,
}

/// The effective delay, in writes, of a line of length `len`.
pub open spec fn delay_of(len: nat) -> nat {
    if len <= 1 {
        1
    } else {
        (len - 1) as nat
    }
}

/// The buffer contents and write position after writing each value of
/// `vs` in turn, starting from contents `c` and write position `p`.
pub open spec fn after_writes<T>(c: Seq<T>, p: nat, vs: Seq<T>) -> (Seq<T>, nat)
    decreases vs.len(),
{
    if vs.len() == 0 {
        (c, p)
    } else {
        let (c1, p1) = after_writes(c, p, vs.drop_last());
        (c1.update(p1 as int, vs.last()), ((p1 + 1) % c.len()) as nat)
    }
}

/// The value read from contents `c` with write position `p`: the slot
/// just after the write position.
pub open spec fn read_at<T>(c: Seq<T>, p: nat) -> T {
    c[((p + 1) % c.len()) as int]
}

impl<T> DelayLine<T> {
    /// The stored values, in buffer order.
    pub closed spec fn contents(&self) -> Seq<T> {
        self.buffer@
    }

    /// The current write position.
    pub closed spec fn position(&self) -> nat {
        self.write_pos as nat
    }

    /// Well-formedness: a non-empty buffer with the write position inside it.
    pub closed spec fn wf(&self) -> bool {
        &&& self.buffer@.len() >= 1
        &&& self.write_pos < self.buffer@.len()
    }
}

impl<T: Copy> DelayLine<T> {
    /// A line of `len` samples (at least one) filled with `fill`, writing
    /// at slot 0.
    pub fn new(len: u32, fill: T) -> (r: Self)
        ensures
            r.contents().len() == if len == 0 { 1 } else { len as nat },
            forall|i: int| 0 <= i < r.contents().len() ==> #[trigger] r.contents()[i] == fill,
            r.position() == 0,
            r.wf(),
    {
        let n: usize = if len == 0 { 1 } else { len as usize };
        let mut buffer: Vec<T> = Vec::new();
        let mut i: usize = 0;
        while i < n
            invariant
                i <= n,
                buffer@.len() == i,
                forall|j: int| 0 <= j < i ==> #[trigger] buffer@[j] == fill,
            decreases n - i,
        {
            buffer.push(fill);
            i = i + 1;
        }
        DelayLine { buffer, write_pos: 0 }
    }

    /// Number of slots in the line.
    pub fn len(&self) -> (n: usize)
        requires
            self.wf(),
        ensures
            n == self.contents().len(),
            n >= 1,
            self.position() < n,
    {
        self.buffer.len()
    }

    /// The oldest stored value: the slot just after the write position.
    pub fn read_oldest(&self) -> (v: T)
        requires
            self.wf(),
        ensures
            v == read_at(self.contents(), self.position()),
    {
        let len = self.buffer.len();
        let read_pos = if self.write_pos + 1 == len { 0 } else { self.write_pos + 1 };
        proof {
            if self.write_pos + 1 == len {
                vstd::arithmetic::div_mod::lemma_mod_self_0(len as int);
            } else {
                vstd::arithmetic::div_mod::lemma_small_mod((self.write_pos + 1) as nat, len as nat);
            }
        }
        self.buffer[read_pos]
    }

    /// Store `v` at the write position and advance the position by one slot,
    /// wrapping at the end of the buffer.
    pub fn write(&mut self, v: T)
        requires
            old(self).wf(),
        ensures
            final(self).wf(),
            final(self).contents() == old(self).contents().update(old(self).position() as int, v),
            final(self).position() == (old(self).position() + 1) % old(self).contents().len(),
    {
        let len = self.buffer.len();
        let pos = self.write_pos;
        let next = if pos + 1 == len { 0 } else { pos + 1 };
        proof {
            if pos + 1 == len {
                vstd::arithmetic::div_mod::lemma_mod_self_0(len as int);
            } else {
                vstd::arithmetic::div_mod::lemma_small_mod((pos + 1) as nat, len as nat);
            }
        }
        self.buffer.set(pos, v);
        self.write_pos = next;
    }

    /// Fill the whole line with `fill` and move the write position to slot 0.
    pub fn reset(&mut self, fill: T)
        requires
            old(self).wf(),
        ensures
            final(self).wf(),
            final(self).contents().len() == old(self).contents().len(),
            forall|i: int| 0 <= i < final(self).contents().len() ==> #[trigger] final(self).contents()[i] == fill,
            final(self).position() == 0,
    {
        let n = self.buffer.len();
        self.write_pos = 0;
        let mut i: usize = 0;
        while i < n
            invariant
                i <= n,
                self.buffer@.len() == n,
                n >= 1,
                self.write_pos == 0,
                forall|j: int| 0 <= j < i ==> #[trigger] self.buffer@[j] == fill,
            decreases n - i,
        {
            self.buffer.set(i, fill);
            i = i + 1;
        }
    }
}

/// Writing never changes the length, and the write position after `k`
/// writes is `(p + k) mod L`; the last `min(k, L)` values written sit just
/// behind it, newest first.
proof fn lemma_after_writes_layout<T>(c: Seq<T>, p: nat, vs: Seq<T>, d: nat)
    requires
        c.len() >= 1,
        p < c.len(),
        1 <= d <= vs.len(),
        d <= c.len(),
    ensures
        after_writes(c, p, vs).0.len() == c.len(),
        after_writes(c, p, vs).1 == (p + vs.len()) % c.len(),
        after_writes(c, p, vs).0[((p + vs.len() - d) % (c.len() as int))] == vs[vs.len() - d],
    decreases vs.len(),
{
    let l = c.len() as int;
    let k = vs.len() as int;
    let front = vs.drop_last();
    lemma_after_writes_shape(c, p, front);
    let (c1, p1) = after_writes(c, p, front);
    assert(p1 == (p + k - 1) % l);
    if d == 1 {
        assert(((p + k - 1) % l) == (p + vs.len() - d) % l);
    } else {
        lemma_after_writes_layout(c, p, front, (d - 1) as nat);
        assert(front[front.len() - (d - 1)] == vs[k - d]);
        assert((p + front.len() - (d - 1)) == p + k - d);
        lemma_distinct_slots(p + k - 1, d - 1, l);
    }
    lemma_mod_step(p + k - 1, l);
}

/// Shape of the state after writes: length kept, position advanced.
proof fn lemma_after_writes_shape<T>(c: Seq<T>, p: nat, vs: Seq<T>)
    requires
        c.len() >= 1,
        p < c.len(),
    ensures
        after_writes(c, p, vs).0.len() == c.len(),
        after_writes(c, p, vs).1 == (p + vs.len()) % c.len(),
    decreases vs.len(),
{
    let l = c.len() as int;
    if vs.len() == 0 {
        vstd::arithmetic::div_mod::lemma_small_mod(p, c.len());
    } else {
        lemma_after_writes_shape(c, p, vs.drop_last());
        lemma_mod_step((p + vs.len() - 1) as int, l);
    }
}

/// `((a mod L) + 1) mod L == (a + 1) mod L`.
proof fn lemma_mod_step(a: int, l: int)
    requires
        a >= 0,
        l >= 1,
    ensures
        ((a % l) + 1) % l == (a + 1) % l,
{
    vstd::arithmetic::div_mod::lemma_add_mod_noop(a, 1, l);
    vstd::arithmetic::div_mod::lemma_mod_twice(1, l);
    if l == 1 {
        assert(1int % 1 == 0);
    } else {
        vstd::arithmetic::div_mod::lemma_small_mod(1, l as nat);
    }
}

/// Slots `e` steps behind `a` (for `1 ≤ e < L`) differ from slot `a`.
proof fn lemma_distinct_slots(a: int, e: int, l: int)
    requires
        1 <= e < l,
        e <= a,
    ensures
        (a - e) % l != a % l,
{
    vstd::arithmetic::div_mod::lemma_fundamental_div_mod(a, l);
    vstd::arithmetic::div_mod::lemma_fundamental_div_mod(a - e, l);
    let q1 = a / l;
    let q2 = (a - e) / l;
    if (a - e) % l == a % l {
        assert(l * q1 - l * q2 == e);
        assert(l * (q1 - q2) == e) by (nonlinear_arith)
            requires
                l * q1 - l * q2 == e,
        ;
        if q1 - q2 >= 1 {
            assert(l * (q1 - q2) >= l) by (nonlinear_arith)
                requires
                    q1 - q2 >= 1,
                    l >= 1,
            ;
        } else {
            assert(l * (q1 - q2) <= 0) by (nonlinear_arith)
                requires
                    q1 - q2 <= 0,
                    l >= 1,
            ;
        }
    }
}

/// A delay line returns what was written `delay_of(L)` writes earlier:
/// after any run of at least that many writes, reading gives the value
/// written that many writes before the end of the run.
pub proof fn lemma_delay_line_delays<T>(c: Seq<T>, p: nat, vs: Seq<T>)
    requires
        c.len() >= 1,
        p < c.len(),
        vs.len() >= delay_of(c.len()),
    ensures
        read_at(after_writes(c, p, vs).0, after_writes(c, p, vs).1) == vs[vs.len() - delay_of(
            c.len(),
        )],
{
    let l = c.len() as int;
    let k = vs.len() as int;
    let dd = delay_of(c.len());
    lemma_after_writes_layout(c, p, vs, dd);
    let (c2, p2) = after_writes(c, p, vs);
    lemma_mod_step(p + k, l);
    if l == 1 {
        assert((p + k - 1) % 1 == 0);
        assert((p2 + 1) % 1 == 0);
    } else {
        vstd::arithmetic::div_mod::lemma_mod_add_multiples_vanish(p + k - (l - 1), l);
        assert(p + k - (l - 1) + l == p + k + 1);
    }
}

/// One more write extends a run of writes by exactly what [`DelayLine::write`]
/// does: store at the current write position, then advance it. So a line
/// built by `new` and fed `vs` through `write` is in the state
/// `after_writes(contents, position, vs)` of the line it started from.
pub proof fn lemma_write_is_one_step<T>(c: Seq<T>, p: nat, vs: Seq<T>, v: T)
    ensures
        after_writes(c, p, vs.push(v)) == (
            after_writes(c, p, vs).0.update(after_writes(c, p, vs).1 as int, v),
            ((after_writes(c, p, vs).1 + 1) % c.len()) as nat,
        ),
{
    assert(vs.push(v).drop_last() =~= vs);
    assert(vs.push(v).last() == v);
}

} // verus!
