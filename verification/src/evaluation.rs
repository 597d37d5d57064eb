use vstd::prelude::*;
use crate::types::{Ind, Pop};
use crate::sampling::RandSource;

verus! {

// Fitness evaluation for the plain genetic algorithm: the caller's judge
// sees the raw genome bytes and returns a 32-bit score (so that a whole
// population's total can never overflow a 64-bit sum).

/// The caller-supplied fitness judge for raw genomes.  For a reproducible
/// run it must be deterministic given genome and generator state.
pub trait Evaluator<R: RandSource> {
    fn evaluate(&mut self, ind: &Ind<u8>, rng: &mut R) -> u32;
}

/// Fill the fitness vector with one score per genome.
pub fn evaluate<R: RandSource, E: Evaluator<R>>(
    pop: &Pop<u8>,
    eval: &mut E,
    fitnesses: &mut Vec<u64>,
    rng: &mut R,
)
    requires
        old(fitnesses)@.len() == pop@.len(),
    ensures
        final(fitnesses)@.len() == pop@.len(),
        forall|i: int| 0 <= i < final(fitnesses)@.len() ==> (#[trigger] final(fitnesses)@[i])
            <= u32::MAX,
{
    let mut i: usize = 0;
    while i < pop.0.len()
        invariant
            i <= pop@.len(),
            fitnesses@.len() == pop@.len(),
            forall|j: int| 0 <= j < i ==> (#[trigger] fitnesses@[j]) <= u32::MAX,
        decreases pop@.len() - i,
    {
        let fitness = eval.evaluate(&pop.0[i], rng);
        fitnesses.set(i, fitness as u64);
        i = i + 1;
    }
}

/// The index of the fittest genome: the first index whose fitness no other
/// index exceeds (index zero when every fitness is zero).
pub fn fittest(fitnesses: &Vec<u64>) -> (index: usize)
    requires
        fitnesses@.len() >= 1,
    ensures
        index < fitnesses@.len(),
        forall|j: int| 0 <= j < fitnesses@.len() ==> #[trigger] fitnesses@[j] <= fitnesses@[
            index as int],
        forall|j: int| 0 <= j < index ==> #[trigger] fitnesses@[j] < fitnesses@[index as int],
{
    let mut best_index: usize = 0;
    let mut best_fitness: u64 = 0;
    let mut i: usize = 0;
    while i < fitnesses.len()
        invariant
            i <= fitnesses@.len(),
            fitnesses@.len() >= 1,
            best_index < fitnesses@.len(),
            best_index < i || best_index == 0,
            i > 0 ==> best_fitness == fitnesses@[best_index as int],
            i == 0 ==> best_fitness == 0,
            best_fitness >= fitnesses@[best_index as int] || i == 0,
            forall|j: int| 0 <= j < i ==> #[trigger] fitnesses@[j] <= best_fitness,
            forall|j: int| 0 <= j < best_index ==> #[trigger] fitnesses@[j] < best_fitness,
        decreases fitnesses@.len() - i,
    {
        if fitnesses[i] > best_fitness {
            best_index = i;
            best_fitness = fitnesses[i];
        }
        i = i + 1;
    }
    best_index
}

} // verus!
