use rand::Rng;
use rand::RngCore;
use rand::SeedableRng;
use rand::seq::SliceRandom;
use vstd::prelude::*;

use crate::primitives::Pubkey;

verus! {

#[verifier::external_type_specification]
#[verifier::external_body]
pub struct ExStdRng(rand::rngs::StdRng);

/// Sixty-four bits from which a generator is started.
pub struct RngSeed(pub u64);

/// A generator from which independent child generators can be split off.
pub trait GeneratesRngSeed<R> {
    /// Reads 64 bits from `self`, which thereby advances, and starts a fresh
    /// generator of type `R` from them.
    fn next_rng_seed(&mut self) -> R;
}

/// The simulation's source of randomness: the `rand` crate's standard
/// generator. Its state is opaque to the verifier, so every contract in this
/// library holds for whatever a draw returns.
pub struct SimRng {
    inner: rand::rngs::StdRng,
}

/// The generator that the `rand` crate's standard generator is when it has
/// been started from the 64 bits of `seed` and nothing has been drawn from it
/// yet.
pub uninterp spec fn generator_started_from(seed: u64) -> SimRng;

/// `StdRng::seed_from_u64`, which computes the generator's first state from
/// the seed alone: the generator started from `seed`.
#[verifier::external_body]
fn generator_from_word(seed: u64) -> (rng: SimRng)
    ensures
        rng == generator_started_from(seed),
{
    SimRng { inner: rand::rngs::StdRng::seed_from_u64(seed) }
}

/// `RngCore::next_u64`: the next 64 bits of the stream.
#[verifier::external_body]
fn next_word(rng: &mut SimRng) -> u64 {
    rng.inner.next_u64()
}

/// `Rng::gen_range` on the half-open range `low..high`, which panics when the
/// range is empty: the value lies in the range.
#[verifier::external_body]
pub(crate) fn draw_in_range(rng: &mut SimRng, low: u64, high: u64) -> (drawn: u64)
    requires
        low < high,
    ensures
        low <= drawn < high,
{
    rng.inner.gen_range(low..high)
}

/// `Rng::gen_ratio`, which panics on a zero denominator or a numerator above
/// it: true with chance `numerator / denominator`, hence never when the
/// numerator is zero and always when the two are equal.
#[verifier::external_body]
pub(crate) fn draw_ratio(rng: &mut SimRng, numerator: u32, denominator: u32) -> (hit: bool)
    requires
        0 < denominator,
        numerator <= denominator,
    ensures
        numerator == 0 ==> !hit,
        numerator == denominator ==> hit,
{
    rng.inner.gen_ratio(numerator, denominator)
}

/// `SliceRandom::choose` on the pool: one of its elements, or nothing when
/// the pool is empty.
#[verifier::external_body]
pub(crate) fn choose_one(rng: &mut SimRng, pool: &Vec<Pubkey>) -> (picked: Option<Pubkey>)
    ensures
        picked is Some <==> pool.len() > 0,
        picked matches Some(p) ==> pool@.contains(p),
{
    pool.as_slice().choose(&mut rng.inner).copied()
}

/// `Rng::gen` for a 32-byte array: 32 random bytes.
#[verifier::external_body]
pub(crate) fn draw_key_bytes(rng: &mut SimRng) -> [u8; 32] {
    rng.inner.gen()
}

impl SimRng {
    /// The generator started from `seed`: equal seeds give equal generators.
    pub fn new(seed: RngSeed) -> (rng: SimRng)
        ensures
            rng == generator_started_from(seed.0),
    {
        generator_from_word(seed.0)
    }

    /// Reads the next 64 bits of the stream as a seed.
    pub fn next_seed(&mut self) -> RngSeed {
        RngSeed(next_word(self))
    }
}

impl GeneratesRngSeed<SimRng> for SimRng {
    /// Reads 64 bits from `self` and starts the child from them. Which bits
    /// are read is up to the state of `self`; whatever they are, the child is
    /// a generator freshly started from a seed, with nothing drawn from it
    /// yet.
    fn next_rng_seed(&mut self) -> (child: SimRng)
        ensures
            exists|seed: u64| child == #[trigger] generator_started_from(seed),
    {
        let seed = self.next_seed();
        SimRng::new(seed)
    }
}

} // verus!
