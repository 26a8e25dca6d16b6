//! A deterministic block generator seeded once per session.
//!
//! The garbling protocols need randomness with two properties: cooperating
//! garblers seeded alike must draw identical blocks, and a session replayed
//! with the same seed must garble identically. Both come from deriving block
//! k of seed s as `hash_block(s, tweak2(k, 3))`: a pure function of seed and
//! counter.

use vstd::prelude::*;
use crate::crypto::{hash_block, hash_block_of, tweak2, tweak2_of};

verus! {

/// The counter value after one more draw, wrapping at 2^64.
pub open spec fn wrap64(x: int) -> int {
    x % 0x10000000000000000
}

/// Block k of the stream determined by a seed.
pub open spec fn rng_block_of(seed: u128, k: u64) -> u128 {
    hash_block_of(seed, tweak2_of(k, 3))
}

/// The generator's mathematical state: its seed and position.
pub ghost struct CounterRngView {
    pub seed: u128,
    pub ctr: u64,
}

/// A deterministic generator of 128-bit blocks.
pub struct CounterRng {
    seed: u128,
    ctr: u64,
}

impl View for CounterRng {
    type V = CounterRngView;

    closed spec fn view(&self) -> CounterRngView {
        CounterRngView { seed: self.seed, ctr: self.ctr }
    }
}

impl CounterRng {
    /// Start the stream of a seed at position 0.
    pub fn from_seed(seed: u128) -> (r: CounterRng)
        ensures
            r@.seed == seed,
            r@.ctr == 0,
    {
        CounterRng { seed, ctr: 0 }
    }

    /// The seed this stream is derived from.
    pub fn seed(&self) -> (s: u128)
        ensures
            s == self@.seed,
    {
        self.seed
    }

    /// Draw the next block of the stream.
    pub fn gen_block(&mut self) -> (r: u128)
        ensures
            r == rng_block_of(old(self)@.seed, old(self)@.ctr),
            final(self)@.seed == old(self)@.seed,
            final(self)@.ctr as int == wrap64(old(self)@.ctr + 1),
    {
        let b = hash_block(self.seed, tweak2(self.ctr, 3));
        self.ctr = if self.ctr == u64::MAX {
            0
        } else {
            self.ctr + 1
        };
        b
    }

    /// Draw a 16-bit value: the low bits of the next block.
    pub fn gen_u16(&mut self) -> (r: u16)
        ensures
            r as int == rng_block_of(old(self)@.seed, old(self)@.ctr) as int % 0x10000,
            final(self)@.seed == old(self)@.seed,
            final(self)@.ctr as int == wrap64(old(self)@.ctr + 1),
    {
        let b = self.gen_block();
        (b % 0x10000) as u16
    }
}

} // verus!
