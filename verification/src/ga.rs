#![allow(non_snake_case)]
use vstd::prelude::*;
use crate::types::{Ind, Pop, PopU8, Prob};
use crate::sampling::RandSource;
use crate::point_mutation::point_mutation;
use crate::crossover::crossover_one_point;
use crate::evaluation::{Evaluator, evaluate};
use crate::selection::{
    SelectionError, stochastic_universal_sampling, lemma_total_fitness_bounded,
    lemma_selection_members, lemma_selection_conservation, lemma_k_elite_bounds, from_population,
};

verus! {

// The plain genetic algorithm: like the gene-expression loop but without
// rotation or decoding — the caller's evaluator sees the raw genome bytes,
// and only one-point crossover is used.

#[derive(Clone, Copy, PartialEq)]
pub struct GaParams {
    pub ind_size: usize,
    pub pop_size: usize,
    pub num_gens: usize,
    pub elitism: usize,
    pub prob_pm: Prob,
    pub prob_pc1: Prob,
}

impl GaParams {
    /// Parameters the generational loop can run with.
    pub open spec fn valid(&self) -> bool {
        &&& 1 <= self.pop_size <= u32::MAX
        &&& self.elitism <= self.pop_size
        &&& 1 <= self.ind_size
        &&& self.ind_size * 8 < u64::MAX
        &&& self.ind_size * 8 <= usize::MAX
        &&& self.prob_pm.valid()
        &&& self.prob_pc1.valid()
    }
}

impl Default for GaParams {
    fn default() -> (params: GaParams)
        ensures
            params.valid(),
            params.pop_size == 100,
            params.ind_size == 100,
            params.elitism == 0,
            params.num_gens == 1000,
    {
        GaParams {
            ind_size: 100,
            pop_size: 100,
            num_gens: 1000,
            elitism: 0,
            prob_pm: Prob::new(1, 100),
            prob_pc1: Prob::new(6, 10),
        }
    }
}

/// A fresh population of random byte genomes; every code is drawn from
/// `0 .. 0xFF` (the top byte value itself is never drawn).
pub fn populationU8<R: RandSource>(pop_size: usize, ind_size: usize, rng: &mut R) -> (pop: PopU8)
    ensures
        pop@.len() == pop_size,
        pop.well_formed(ind_size as nat),
        forall|i: int, j: int|
            0 <= i < pop@.len() && 0 <= j < ind_size ==> (#[trigger] pop@[i][j]) < 0xFF,
{
    let mut genomes: Vec<Ind<u8>> = Vec::new();
    let mut p: usize = 0;
    while p < pop_size
        invariant
            p <= pop_size,
            genomes@.len() == p,
            forall|i: int| 0 <= i < p ==> (#[trigger] genomes@[i])@.len() == ind_size,
            forall|i: int, j: int|
                0 <= i < p && 0 <= j < ind_size ==> (#[trigger] genomes@[i]@[j]) < 0xFF,
        decreases pop_size - p,
    {
        let mut ind_vec: Vec<u8> = Vec::new();
        let mut w: usize = 0;
        while w < ind_size
            invariant
                w <= ind_size,
                ind_vec@.len() == w,
                forall|j: int| 0 <= j < w ==> (#[trigger] ind_vec@[j]) < 0xFF,
            decreases ind_size - w,
        {
            ind_vec.push(rng.below(0xFF) as u8);
            w = w + 1;
        }
        genomes.push(Ind(ind_vec));
        p = p + 1;
    }
    Pop(genomes)
}

/// A population of all-zero byte genomes.
pub fn populationU8Zeros(pop_size: usize, ind_size: usize) -> (pop: PopU8)
    ensures
        pop@.len() == pop_size,
        pop.well_formed(ind_size as nat),
        forall|i: int, j: int|
            0 <= i < pop@.len() && 0 <= j < ind_size ==> (#[trigger] pop@[i][j]) == 0,
{
    let mut genomes: Vec<Ind<u8>> = Vec::new();
    let mut p: usize = 0;
    while p < pop_size
        invariant
            p <= pop_size,
            genomes@.len() == p,
            forall|i: int| 0 <= i < p ==> (#[trigger] genomes@[i])@.len() == ind_size,
            forall|i: int, j: int|
                0 <= i < p && 0 <= j < ind_size ==> (#[trigger] genomes@[i]@[j]) == 0,
        decreases pop_size - p,
    {
        let mut ind_vec: Vec<u8> = Vec::new();
        let mut w: usize = 0;
        while w < ind_size
            invariant
                w <= ind_size,
                ind_vec@.len() == w,
                forall|j: int| 0 <= j < w ==> (#[trigger] ind_vec@[j]) == 0,
            decreases ind_size - w,
        {
            ind_vec.push(0u8);
            w = w + 1;
        }
        genomes.push(Ind(ind_vec));
        p = p + 1;
    }
    Pop(genomes)
}

/// The genetic-algorithm loop: mutate, cross, evaluate and select for
/// `num_gens` generations, double-buffering the population.  Fails only if
/// some generation's fitness vector sums to zero.
pub fn ga<R: RandSource, E: Evaluator<R>>(
    params: &GaParams,
    eval: &mut E,
    rng: &mut R,
) -> (r: Result<PopU8, SelectionError>)
    requires
        params.valid(),
    ensures
        params.num_gens == 0 ==> r is Ok,
        r is Ok ==> r->Ok_0@.len() == params.pop_size && r->Ok_0.well_formed(
            params.ind_size as nat,
        ),
{
    let mut pop = populationU8(params.pop_size, params.ind_size, rng);
    let mut alt_pop = populationU8Zeros(params.pop_size, params.ind_size);
    let mut fitnesses: Vec<u64> = Vec::new();
    let mut f: usize = 0;
    while f < params.pop_size
        invariant
            f <= params.pop_size,
            fitnesses@.len() == f,
        decreases params.pop_size - f,
    {
        fitnesses.push(0u64);
        f = f + 1;
    }
    let mut gen: usize = 0;
    while gen < params.num_gens
        invariant
            gen <= params.num_gens,
            params.valid(),
            pop@.len() == params.pop_size,
            pop.well_formed(params.ind_size as nat),
            alt_pop@.len() == params.pop_size,
            fitnesses@.len() == params.pop_size,
        decreases params.num_gens - gen,
    {
        let ghost entry_pop = pop@;
        point_mutation(&mut pop, 8, params.prob_pm, rng);
        proof {
            assert forall|i: int| 0 <= i < pop.0@.len() implies (#[trigger] pop.0@[i])@.len()
                == params.ind_size by {
                assert(pop@[i].len() == entry_pop[i].len());
            }
            assert(pop.well_formed(params.ind_size as nat));
        }
        crossover_one_point(&mut pop, params.ind_size, 8, params.prob_pc1, rng);
        evaluate(&pop, eval, &mut fitnesses, rng);
        proof {
            lemma_total_fitness_bounded(fitnesses@);
        }
        match stochastic_universal_sampling(&pop, &mut alt_pop, &fitnesses, params.elitism, rng) {
            Result::Ok(()) => {},
            Result::Err(e) => {
                return Result::Err(e);
            },
        }
        proof {
            let u = choose|u: int|
                0 <= u < crate::selection::total_fitness(fitnesses@)
                    && crate::selection::sus_selected(
                    pop@,
                    fitnesses@,
                    params.elitism as nat,
                    u,
                    alt_pop@,
                );
            lemma_k_elite_bounds(fitnesses@, params.elitism as nat);
            lemma_selection_conservation(pop@, fitnesses@, params.elitism as nat, u, alt_pop@);
            lemma_selection_members(pop@, fitnesses@, params.elitism as nat, u, alt_pop@);
            assert forall|i: int| 0 <= i < alt_pop@.len() implies (#[trigger] alt_pop.0@[i])@.len()
                == params.ind_size by {
                assert(from_population(pop@, alt_pop@[i]));
                let w = choose|w: int| 0 <= w < pop@.len() && alt_pop@[i] == pop@[w];
                assert(pop@[w].len() == params.ind_size);
            }
        }
        core::mem::swap(&mut pop, &mut alt_pop);
        gen = gen + 1;
    }
    Result::Ok(pop)
}

} // verus!
