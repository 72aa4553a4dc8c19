//! A small deterministic xorshift64* generator, so link simulations are
//! reproducible without an external random-number crate.

use vstd::prelude::*;

verus! {

/// The state a generator starts from when seeded with zero, since xorshift
/// cannot leave the all-zero state.
pub const ZERO_SEED_STATE: u64 = 0x9E3779B97F4A7C15;

/// The xorshift* output multiplier.
pub const OUTPUT_MULTIPLIER: u64 = 0x2545F4914F6CDD1D;

/// The state a generator seeded with `seed` starts from.
pub open spec fn initial_state(seed: u64) -> u64 {
    if seed == 0 {
        ZERO_SEED_STATE
    } else {
        seed
    }
}

/// One xorshift step (shifts 13, 7, 17) on the 64-bit state.
pub open spec fn xorshift(x: u64) -> u64 {
    let a = x ^ (x << 13u64);
    let b = a ^ (a >> 7u64);
    b ^ (b << 17u64)
}

/// The output drawn when the state has just become `x`: `x * M mod 2^64`.
pub open spec fn scramble(x: u64) -> u64 {
    ((x as nat * OUTPUT_MULTIPLIER as nat) % 0x1_0000_0000_0000_0000) as u64
}

/// The state after `n` draws from a generator seeded with `seed`.
pub open spec fn state_after(seed: u64, n: nat) -> u64
    decreases n,
{
    if n == 0 {
        initial_state(seed)
    } else {
        xorshift(state_after(seed, (n - 1) as nat))
    }
}

/// Law: a xorshift step never maps a non-zero state to zero, so a generator
/// never gets stuck at zero.
pub proof fn lemma_xorshift_nonzero(x: u64)
    requires
        x != 0,
    ensures
        xorshift(x) != 0,
{
    let a = x ^ (x << 13u64);
    let b = a ^ (a >> 7u64);
    assert(x != 0 ==> x ^ (x << 13u64) != 0) by (bit_vector);
    assert(a != 0 ==> a ^ (a >> 7u64) != 0) by (bit_vector);
    assert(b != 0 ==> b ^ (b << 17u64) != 0) by (bit_vector);
}

/// Law: every state a generator passes through is non-zero.
pub proof fn lemma_state_after_nonzero(seed: u64, n: nat)
    ensures
        state_after(seed, n) != 0,
    decreases n,
{
    if n > 0 {
        lemma_state_after_nonzero(seed, (n - 1) as nat);
        lemma_xorshift_nonzero(state_after(seed, (n - 1) as nat));
    }
}

/// A tiny xorshift64* PRNG. Not cryptographically secure; only used to drive
/// reproducible noise in link simulations.
#[derive(Debug)]
pub struct Rng {
    state: u64,
}

impl Rng {
    #[verifier::type_invariant]
    spec fn state_nonzero(self) -> bool {
        self.state != 0
    }

    /// The generator's current 64-bit state.
    pub closed spec fn state(self) -> u64 {
        self.state
    }

    /// Seed the generator. A zero seed is remapped since xorshift cannot
    /// escape the all-zero state.
    pub fn new(seed: u64) -> (r: Self)
        ensures
            r.state() == initial_state(seed),
            r.state() != 0,
    {
        Rng {
            state: if seed == 0 {
                ZERO_SEED_STATE
            } else {
                seed
            },
        }
    }

    /// Next raw 64-bit output.
    pub fn next_u64(&mut self) -> (out: u64)
        ensures
            final(self).state() == xorshift(old(self).state()),
            final(self).state() != 0,
            out == scramble(final(self).state()),
    {
        proof {
            use_type_invariant(&*self);
        }
        let mut x: u64 = self.state;
        x = x ^ (x << 13u64);
        x = x ^ (x >> 7u64);
        x = x ^ (x << 17u64);
        proof {
            lemma_xorshift_nonzero(self.state);
        }
        self.state = x;
        let out = x.wrapping_mul(OUTPUT_MULTIPLIER);
        out
    }
}

impl Clone for Rng {
    fn clone(&self) -> (r: Self)
        ensures
            r.state() == self.state(),
    {
        proof {
            use_type_invariant(self);
        }
        Rng { state: self.state }
    }
}

} // verus!
