//! Deterministic resampling of trades for the Monte Carlo analysis.
use vstd::prelude::*;

verus! {

/// Multiplier of the resampling generator.
pub const LCG_MULTIPLIER: u64 = 6364136223846793005;

/// Increment of the resampling generator.
pub const LCG_INCREMENT: u64 = 1442695040888963407;

/// Seed of the resampling generator, fixed so that every analysis draws the same trades.
pub const LCG_SEED: u64 = 42;

/// Next state of the linear congruential generator: `state * a + c` modulo 2^64.
pub open spec fn lcg_next_spec(state: u64) -> u64 {
    ((state as int * LCG_MULTIPLIER as int + LCG_INCREMENT as int) % 0x1_0000_0000_0000_0000int) as u64
}

/// Index drawn among `n` items from a state: its high 31 bits modulo `n`.
pub open spec fn lcg_index_spec(state: u64, n: usize) -> usize {
    ((state as int / 0x2_0000_0000int) % n as int) as usize
}

/// Linear congruential generator that picks which backtest trade each simulated trade
/// repeats.
pub struct Lcg {
    pub state: u64,
}

impl Lcg {
    /// The generator at its fixed seed.
    pub fn new() -> (g: Lcg)
        ensures
            g.state == LCG_SEED,
    {
        Lcg { state: LCG_SEED }
    }

    /// Advances the generator and draws an index below `n`.
    pub fn next_index(&mut self, n: usize) -> (idx: usize)
        requires
            n > 0,
        ensures
            final(self).state == lcg_next_spec(old(self).state),
            idx == lcg_index_spec(final(self).state, n),
            idx < n,
    {
        let s = self.state;
        let m = s.wrapping_mul(LCG_MULTIPLIER);
        let t = m.wrapping_add(LCG_INCREMENT);
        proof {
            let r = 0x1_0000_0000_0000_0000int;
            vstd::arithmetic::div_mod::lemma_add_mod_noop(
                s as int * LCG_MULTIPLIER as int,
                LCG_INCREMENT as int,
                r,
            );
            vstd::arithmetic::div_mod::lemma_small_mod(LCG_INCREMENT as nat, r as nat);
            assert(t == lcg_next_spec(s));
        }
        self.state = t;
        assert(t >> 33u64 == t / 0x2_0000_0000u64) by (bit_vector);
        let hi = t >> 33u64;
        let idx = (hi as usize) % n;
        idx
    }
}

} // verus!
