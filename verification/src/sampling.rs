use vstd::prelude::*;
use crate::types::Prob;

verus! {

// The engine never chooses random numbers itself: every stage takes the
// source of draws as an argument, so that a fixed seed makes a whole run
// reproducible. `RandSource` is that injected source: a uniform integer
// draw, and the geometric gap draw that fast point mutation consumes.
//
// Callers outside the library may plug in any generator they like; the
// library ships `SmallRngSource`, backed by rand's `SmallRng`.
pub trait RandSource {
    /// A draw from the integers `0 .. bound`, uniform for a fair source.
    fn below(&mut self, bound: u64) -> (r: u64)
        requires
            bound > 0,
        ensures
            r < bound,
    ;

    /// The gap to the next success of a Bernoulli process with probability
    /// `p`, truncated to `cap`: distributed as `Geometric(p)` on `1 ..= cap`,
    /// with the whole tail beyond `cap` collapsed onto `cap`.
    fn geometric(&mut self, p: Prob, cap: u64) -> (g: u64)
        requires
            p.valid(),
            cap >= 1,
        ensures
            1 <= g <= cap,
    ;
}

#[verifier::external_type_specification]
#[verifier::external_body]
pub struct ExSmallRng(rand::rngs::SmallRng);

/// Relies on rand's `SeedableRng::seed_from_u64`: builds a generator whose
/// stream is a function of the seed alone.
#[verifier::external_body]
fn small_rng_from_seed(seed: u64) -> rand::rngs::SmallRng {
    <rand::rngs::SmallRng as rand::SeedableRng>::seed_from_u64(seed)
}

/// Relies on rand's `Rng::random_range`: a draw from `0 .. bound` lies in
/// that range, and the range is non-empty so the call cannot panic.
#[verifier::external_body]
fn small_rng_below(rng: &mut rand::rngs::SmallRng, bound: u64) -> (r: u64)
    requires
        bound > 0,
    ensures
        r < bound,
{
    <rand::rngs::SmallRng as rand::RngExt>::random_range(rng, 0..bound)
}

/// A `RandSource` over rand's small, fast generator, seeded explicitly so
/// that runs are reproducible.
pub struct SmallRngSource {
    rng: rand::rngs::SmallRng,
}

impl SmallRngSource {
    pub fn from_seed(seed: u64) -> SmallRngSource {
        SmallRngSource { rng: small_rng_from_seed(seed) }
    }
}

impl RandSource for SmallRngSource {
    fn below(&mut self, bound: u64) -> (r: u64) {
        small_rng_below(&mut self.rng, bound)
    }

    fn geometric(&mut self, p: Prob, cap: u64) -> (g: u64) {
        let mut g: u64 = 1;
        while g < cap
            invariant
                1 <= g <= cap,
                p.valid(),
            decreases cap - g,
        {
            let d = small_rng_below(&mut self.rng, p.den as u64);
            if d < p.num as u64 {
                return g;
            }
            g = g + 1;
        }
        g
    }
}

/// One Bernoulli trial: true with probability `p` for a fair source.
pub(crate) fn happens<R: RandSource>(rng: &mut R, p: Prob) -> bool
    requires
        p.valid(),
{
    rng.below(p.den as u64) < p.num as u64
}

} // verus!
