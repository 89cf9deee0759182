//! The seeded generator: a deterministic source of bytes that holds one
//! 64-bit seed and moves it on with every draw.
use vstd::prelude::*;

verus! {

/// What one draw of a byte does for a generator that holds `seed`: the
/// byte drawn, and the seed held afterwards.
pub uninterp spec fn rng_u8_step(seed: u64) -> (u8, u64);

/// Calls `fastrand::Rng::with_seed`, then `Rng::u8` with the full range
/// and `Rng::get_seed` on the result. Trusted: that the byte drawn and the
/// seed held afterwards depend on `seed` alone; `rng_u8_step` is the name
/// of that pair.
#[verifier::external_body]
fn draw_u8(seed: u64) -> (drawn: (u8, u64))
    ensures
        drawn == rng_u8_step(seed),
{
    let mut rng = fastrand::Rng::with_seed(seed);
    let value = rng.u8(..);
    (value, rng.get_seed())
}

/// The seed that a generator holds after `n` draws from `seed`.
pub open spec fn seed_after(seed: u64, n: nat) -> u64
    decreases n,
{
    if n == 0 {
        seed
    } else {
        rng_u8_step(seed_after(seed, (n - 1) as nat)).1
    }
}

/// The byte that a generator started with `seed` gives on draw `n`,
/// counting from 0.
pub open spec fn drawn_u8(seed: u64, n: nat) -> u8 {
    rng_u8_step(seed_after(seed, n)).0
}

/// A seeded generator. It is viewed as the seed that it holds.
pub struct Generator {
    seed: u64,
}

impl View for Generator {
    type V = u64;

    closed spec fn view(&self) -> u64 {
        self.seed
    }
}

impl Generator {
    /// A generator that holds `seed`.
    pub fn with_seed(seed: u64) -> (generator: Self)
        ensures
            generator@ == seed,
    {
        Generator { seed }
    }

    /// The seed held now.
    pub fn get_seed(&self) -> (seed: u64)
        ensures
            seed == self@,
    {
        self.seed
    }

    /// Draws a byte and moves the seed on.
    pub fn next_u8(&mut self) -> (value: u8)
        ensures
            value == drawn_u8(old(self)@, 0),
            final(self)@ == seed_after(old(self)@, 1),
    {
        let (value, seed) = draw_u8(self.seed);
        self.seed = seed;
        assert(seed_after(old(self)@, 0) == old(self)@);
        value
    }
}

/// Drawing `m` bytes and then `n` more is drawing `m + n`.
pub proof fn lemma_seed_after_add(seed: u64, m: nat, n: nat)
    ensures
        seed_after(seed_after(seed, m), n) == seed_after(seed, m + n),
        drawn_u8(seed_after(seed, m), n) == drawn_u8(seed, m + n),
    decreases n,
{
    if n > 0 {
        lemma_seed_after_add(seed, m, (n - 1) as nat);
    }
}

/// Two generators that hold the same seed give the same bytes, draw for
/// draw, and hold the same seed after any number of draws.
pub proof fn lemma_same_seed_same_draws(first: Generator, second: Generator, n: nat)
    requires
        first@ == second@,
    ensures
        drawn_u8(first@, n) == drawn_u8(second@, n),
        seed_after(first@, n) == seed_after(second@, n),
{
}

} // verus!
