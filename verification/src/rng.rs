//! A small deterministic, seedable random-number generator. The game state
//! owns one and threads it through map generation and combat rolls, so a
//! whole run is replayable from its seed.

use vstd::prelude::*;

verus! {

/// Multiplier of the linear-congruential step.
pub const RNG_MUL: u64 = 6364136223846793005;

/// Increment of the linear-congruential step.
pub const RNG_INC: u64 = 1442695040888963407;

/// A linear-congruential generator over 64-bit state.
pub struct Rng {
    state: u64,
}

impl Rng {
    /// The successor state of the generator.
    pub open spec fn spec_step(s: u64) -> u64 {
        vstd::wrapping::u64_specs::wrapping_add(vstd::wrapping::u64_specs::wrapping_mul(s, RNG_MUL), RNG_INC)
    }

    /// The raw 32-bit output drawn while stepping away from state `s`:
    /// the high half of the successor state.
    pub open spec fn spec_output(s: u64) -> u64 {
        Self::spec_step(s) >> 32
    }

    /// The value `gen_range(lo, hi)` returns when called at state `s`.
    pub open spec fn spec_range(s: u64, lo: int, hi: int) -> int {
        lo + (Self::spec_output(s) as int) % (hi - lo + 1)
    }

    pub closed spec fn view(self) -> u64 {
        self.state
    }

    /// A generator starting from the given seed.
    pub fn new(seed: u64) -> (r: Rng)
        ensures
            r@ == seed,
    {
        Rng { state: seed }
    }

    /// Advances the generator once and returns its 32-bit output.
    pub fn next_u32(&mut self) -> (r: u32)
        ensures
            final(self)@ == Self::spec_step(old(self)@),
            r == Self::spec_output(old(self)@),
    {
        let next = self.state.wrapping_mul(RNG_MUL).wrapping_add(RNG_INC);
        self.state = next;
        let out = next >> 32;
        assert(out < 0x1_0000_0000) by {
            assert(next >> 32u64 < 0x1_0000_0000u64) by (bit_vector);
        }
        out as u32
    }

    /// A uniform draw from the inclusive range `lo ..= hi`.
    pub fn gen_range(&mut self, lo: i32, hi: i32) -> (r: i32)
        requires
            lo <= hi,
        ensures
            final(self)@ == Self::spec_step(old(self)@),
            r == Self::spec_range(old(self)@, lo as int, hi as int),
            lo <= r <= hi,
    {
        let out = self.next_u32();
        let span = (hi as i64 - lo as i64 + 1) as u64;
        let offset = (out as u64) % span;
        assert(offset < span);
        let r = (lo as i64 + offset as i64) as i32;
        r
    }
}

} // verus!
