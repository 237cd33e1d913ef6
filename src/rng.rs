use vstd::prelude::*;
use vstd::arithmetic::div_mod::lemma_add_mod_noop;

verus! {

/// The increment of the SplitMix64 generator.
pub const GAMMA: u64 = 0x9E37_79B9_7F4A_7C15;

pub open spec fn mul64(x: u64, y: u64) -> u64 {
    ((x as nat * y as nat) % 0x1_0000_0000_0000_0000) as u64
}

/// The SplitMix64 output function applied to a state.
pub open spec fn mix(z: u64) -> u64 {
    let a = mul64(z ^ (z >> 30u64), 0xBF58_476D_1CE4_E5B9);
    let b = mul64(a ^ (a >> 27u64), 0x94D0_49BB_1331_11EB);
    b ^ (b >> 31u64)
}

/// The state after `k` steps from `seed`.
pub open spec fn state_after(seed: u64, k: nat) -> u64 {
    ((seed + k * GAMMA) % 0x1_0000_0000_0000_0000) as u64
}

/// The `k`-th number (from 0) that the generator seeded with `seed` draws.
pub open spec fn draw(seed: u64, k: nat) -> u64 {
    mix(state_after(seed, k + 1))
}

/// A seeded SplitMix64 generator: one state word, advanced once per draw.
pub struct SplitMix {
    pub state: u64,
}

impl SplitMix {
    pub fn new(seed: u64) -> (r: SplitMix)
        ensures
            r.state == seed,
    {
        SplitMix { state: seed }
    }

    /// Advances the state and returns the next number.
    pub fn next_u64(&mut self) -> (r: u64)
        ensures
            final(self).state == ((old(self).state + GAMMA) % 0x1_0000_0000_0000_0000) as u64,
            r == mix(final(self).state),
    {
        self.state = self.state.wrapping_add(GAMMA);
        let z = self.state;
        let a = (z ^ (z >> 30u64)).wrapping_mul(0xBF58_476D_1CE4_E5B9);
        let b = (a ^ (a >> 27u64)).wrapping_mul(0x94D0_49BB_1331_11EB);
        b ^ (b >> 31u64)
    }
}

/// One more step from the state after `k` steps gives the state after `k + 1`.
pub proof fn lemma_state_step(seed: u64, k: nat)
    ensures
        ((state_after(seed, k) + GAMMA) % 0x1_0000_0000_0000_0000) as u64 == state_after(seed, k + 1),
{
    let m: int = 0x1_0000_0000_0000_0000;
    let x: int = seed + k * GAMMA;
    lemma_add_mod_noop(x, GAMMA as int, m);
    assert((GAMMA as int) % m == GAMMA as int);
    assert((k + 1) * (GAMMA as int) == k * (GAMMA as int) + GAMMA) by (nonlinear_arith);
}

} // verus!
