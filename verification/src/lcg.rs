//! The deterministic generator behind every synthetic corpus.

use vstd::prelude::*;

verus! {

/// The multiplier of the recurrence.
pub const MULTIPLIER: u64 = 6364136223846793005;

/// The increment of the recurrence.
pub const INCREMENT: u64 = 1442695040888963407;

/// A simple deterministic linear congruential generator, so that corpora are reproducible across
/// runs and machines.
pub struct Lcg(pub u64);

/// The state that follows `state`: one turn of the recurrence modulo two to the sixty-fourth.
pub open spec fn next_state(state: u64) -> u64 {
    ((state * MULTIPLIER + INCREMENT) % 0x1_0000_0000_0000_0000) as u64
}

/// The state after `count` turns from `seed`.
pub open spec fn state_after(seed: u64, count: nat) -> u64
    decreases count,
{
    if count == 0 {
        seed
    } else {
        next_state(state_after(seed, (count - 1) as nat))
    }
}

/// The number drawn from a state: all but its sixteen low bits.
pub open spec fn drawn(state: u64) -> u64 {
    state / 0x1_0000
}

/// The `index`-th number (from zero) that a generator seeded with `seed` draws.
pub open spec fn draw(seed: u64, index: nat) -> u64 {
    drawn(state_after(seed, index + 1))
}

/// The `index`-th number drawn from `seed`, reduced below `bound` (a bound of zero counts as one).
pub open spec fn draw_below(seed: u64, index: nat, bound: u64) -> u64 {
    draw(seed, index) % (if bound == 0 { 1u64 } else { bound })
}

impl Lcg {
    /// Advances the generator by one turn and returns the number drawn.
    pub fn step(&mut self) -> (value: u64)
        ensures
            final(self).0 == next_state(old(self).0),
            final(self).0 == (old(self).0 * 6364136223846793005 + 1442695040888963407)
                % 0x1_0000_0000_0000_0000,
            value == drawn(final(self).0),
            value == final(self).0 / 0x1_0000,
    {
        let ghost before = self.0;
        self.0 = self.0.wrapping_mul(MULTIPLIER).wrapping_add(INCREMENT);
        proof {
            vstd::arithmetic::div_mod::lemma_add_mod_noop_right(
                INCREMENT as int,
                before * MULTIPLIER,
                0x1_0000_0000_0000_0000,
            );
        }
        let state: u64 = self.0;
        assert(state >> 16 == state / 0x1_0000) by (bit_vector);
        self.0 >> 16
    }

    /// Advances the generator by one turn and returns the number drawn, reduced below `n`. A bound
    /// of zero counts as one.
    pub fn next(&mut self, n: u64) -> (value: u64)
        ensures
            final(self).0 == next_state(old(self).0),
            final(self).0 == (old(self).0 * 6364136223846793005 + 1442695040888963407)
                % 0x1_0000_0000_0000_0000,
            value == drawn(final(self).0) % (if n == 0 { 1u64 } else { n }),
            n > 0 ==> value == (final(self).0 / 0x1_0000) % n,
            n == 0 ==> value == 0,
    {
        let bound: u64 = if n == 0 { 1 } else { n };
        self.step() % bound
    }
}

/// The stream of a generator restarted from the state that another reached is the tail of that
/// other's stream.
pub proof fn law_stream_resumes(seed: u64, done: nat, count: nat)
    ensures
        state_after(state_after(seed, done), count) == state_after(seed, done + count),
    decreases count,
{
    if count > 0 {
        law_stream_resumes(seed, done, (count - 1) as nat);
    }
}

/// Every state of a stream follows from the one before by the same recurrence, from the seed on and
/// without a restart.
pub proof fn law_stream_follows_recurrence(seed: u64, count: nat)
    ensures
        state_after(seed, 0) == seed,
        state_after(seed, count + 1) == (state_after(seed, count) * 6364136223846793005
            + 1442695040888963407) % 0x1_0000_0000_0000_0000,
{
}

/// The number drawn at a position is the state that follows without its sixteen low bits, reduced
/// below the bound where there is one.
pub proof fn law_draw_is_high_bits(seed: u64, index: nat, bound: u64)
    ensures
        draw(seed, index) == state_after(seed, index + 1) / 0x1_0000,
        bound > 0 ==> draw_below(seed, index, bound) == (state_after(seed, index + 1) / 0x1_0000)
            % bound,
{
}

} // verus!
