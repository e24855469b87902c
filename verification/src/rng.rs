//! A xorshift64* pseudo-random source and the draws the puzzles are built from.

use vstd::prelude::*;

verus! {

/// The constant mixed into the entropy a generator is seeded with.
pub const SEED_MIX: u64 = 0xa076_1d64_78bd_642f;

/// The multiplier of the xorshift64* output step.
pub const XORSHIFT_MULTIPLIER: u64 = 0x2545_f491_4f6c_dd1d;

/// One step of the xorshift64* generator: three shift-xors, then a
/// multiplication modulo 2^64.
pub open spec fn next_state(s: u64) -> u64 {
    let a = s ^ (s >> 12u64);
    let b = a ^ (a << 25u64);
    let c = b ^ (b >> 27u64);
    ((c as nat * XORSHIFT_MULTIPLIER as nat) % 0x1_0000_0000_0000_0000) as u64
}

/// The state after `n` steps from `s`; the `n`-th draw from `s` is this value.
pub open spec fn advance(s: u64, n: nat) -> u64
    decreases n,
{
    if n == 0 {
        s
    } else {
        next_state(advance(s, (n - 1) as nat))
    }
}

/// The fair coin read off a drawn value: its lowest bit is clear.
pub open spec fn coin(v: u64) -> bool {
    v % 2 == 0
}

/// The number in `start..end` picked by a drawn value.
pub open spec fn pick(v: u64, start: int, end: int) -> int {
    start + (v as usize) as int % (end - start)
}

/// Taking `a` steps and then `b` steps is taking `a + b` steps.
pub proof fn lemma_advance_add(s: u64, a: nat, b: nat)
    ensures
        advance(advance(s, a), b) == advance(s, a + b),
    decreases b,
{
    if b > 0 {
        lemma_advance_add(s, a, (b - 1) as nat);
    }
}

/// The step maps 0 to 0 and nothing else to 0: a generator seeded away
/// from 0 never reaches 0, and one at 0 stays there.
pub proof fn lemma_next_state_zero(s: u64)
    ensures
        next_state(s) == 0 <==> s == 0,
{
    let a = s ^ (s >> 12u64);
    let b = a ^ (a << 25u64);
    let c = b ^ (b >> 27u64);
    assert(a == 0 <==> s == 0) by (bit_vector)
        requires
            a == s ^ (s >> 12u64),
    ;
    assert(b == 0 <==> a == 0) by (bit_vector)
        requires
            b == a ^ (a << 25u64),
    ;
    assert(c == 0 <==> b == 0) by (bit_vector)
        requires
            c == b ^ (b >> 27u64),
    ;
    assert(((c as nat * XORSHIFT_MULTIPLIER as nat) % 0x1_0000_0000_0000_0000) as u64 == 0 <==> c == 0) by {
        lemma_odd_multiple_zero(c);
    }
}

/// Multiplying by the (odd) multiplier modulo 2^64 gives 0 only for 0.
proof fn lemma_odd_multiple_zero(c: u64)
    ensures
        ((c as nat * XORSHIFT_MULTIPLIER as nat) % 0x1_0000_0000_0000_0000) as u64 == 0 <==> c == 0,
{
    assert((c as nat * XORSHIFT_MULTIPLIER as nat) % 0x1_0000_0000_0000_0000 == (c * 0x2545_f491_4f6c_dd1du64) as u64) by (bit_vector);
    assert(((c * 0x2545_f491_4f6c_dd1du64) as u64 == 0) <==> c == 0) by (bit_vector);
}

/// A small deterministic pseudo-random generator.
pub struct SimpleRng {
    state: u64,
}

impl View for SimpleRng {
    type V = u64;

    closed spec fn view(&self) -> u64 {
        self.state
    }
}

impl SimpleRng {
    /// A generator whose state is `entropy` mixed with `SEED_MIX`.
    pub fn seeded(entropy: u64) -> (rng: Self)
        ensures
            rng@ == entropy ^ SEED_MIX,
    {
        SimpleRng { state: entropy ^ SEED_MIX }
    }

    /// Steps the generator and returns its new state.
    pub fn next_u64(&mut self) -> (v: u64)
        ensures
            v == next_state(old(self)@),
            final(self)@ == v,
    {
        self.state = self.state ^ (self.state >> 12u64);
        self.state = self.state ^ (self.state << 25u64);
        self.state = self.state ^ (self.state >> 27u64);
        self.state = self.state.wrapping_mul(XORSHIFT_MULTIPLIER);
        self.state
    }

    /// One draw, read as a fair coin.
    pub fn gen_bool(&mut self) -> (b: bool)
        ensures
            final(self)@ == next_state(old(self)@),
            b == coin(final(self)@),
    {
        let v = self.next_u64();
        assert((v & 1 == 0) == (v % 2 == 0)) by (bit_vector);
        v & 1 == 0
    }

    /// One draw, read as a number in `start..end`.
    pub fn gen_range(&mut self, start: usize, end: usize) -> (r: usize)
        requires
            start < end,
        ensures
            final(self)@ == next_state(old(self)@),
            r == pick(final(self)@, start as int, end as int),
            start <= r < end,
    {
        let v = self.next_u64();
        start + (v as usize % (end - start))
    }

    /// One draw, true with chance `numerator / denominator`: the draw read as a
    /// number in `0..denominator` is below `numerator`.
    pub fn gen_ratio(&mut self, numerator: usize, denominator: usize) -> (b: bool)
        requires
            0 < denominator,
        ensures
            final(self)@ == next_state(old(self)@),
            b == (pick(final(self)@, 0, denominator as int) < numerator),
    {
        self.gen_range(0, denominator) < numerator
    }
}

} // verus!
