use vstd::prelude::*;
use crate::types::{Ind, Pop, PopU8, Prob};
use crate::sampling::RandSource;
use crate::symbols::Symbol;
use crate::rotation::rotation;
use crate::point_mutation::point_mutation;
use crate::crossover::{crossover_one_point, crossover_two_point};
use crate::selection::{
    SelectionError, stochastic_universal_sampling, lemma_total_fitness_bounded,
    lemma_selection_conservation, lemma_selection_members, lemma_k_elite_bounds, from_population,
};
use crate::rgep::context::{Context, two_pow, lemma_one_shl_is_two_pow};
use crate::rgep::program::Program;

pub mod context;
pub mod program;

verus! {

// Gene expression programming: genomes are byte-packed code strings that
// decode into stack programs against an instruction context.  Each
// generation rotates, mutates and crosses the population, evaluates every
// genome's program for fitness, and selects the next generation by
// stochastic universal sampling with elitism, writing into an alternate
// buffer that is then swapped in.

#[derive(Clone)]
pub struct RgepParams {
    pub prob_mut: Prob,
    pub prob_one_point_crossover: Prob,
    pub prob_two_point_crossover: Prob,
    pub prob_rotation: Prob,
    pub pop_size: usize,
    pub ind_size: usize,
    pub elitism: usize,
    pub num_gens: usize,
}

impl RgepParams {
    /// Parameters the generational loop can run with: a non-empty
    /// population of non-empty genomes, meaningful probabilities, and
    /// sizes small enough that bit arithmetic cannot overflow.
    pub open spec fn valid(&self) -> bool {
        &&& 1 <= self.pop_size <= u32::MAX
        &&& self.elitism <= self.pop_size
        &&& 1 <= self.ind_size
        &&& self.ind_size * 8 < u64::MAX
        &&& self.ind_size * 8 <= usize::MAX
        &&& self.prob_mut.valid()
        &&& self.prob_one_point_crossover.valid()
        &&& self.prob_two_point_crossover.valid()
        &&& self.prob_rotation.valid()
    }
}

impl Default for RgepParams {
    fn default() -> (params: RgepParams)
        ensures
            params.valid(),
            params.pop_size == 25,
            params.ind_size == 100,
            params.elitism == 1,
            params.num_gens == 100,
    {
        RgepParams {
            prob_mut: Prob::new(1, 1000),
            prob_one_point_crossover: Prob::new(6, 10),
            prob_two_point_crossover: Prob::new(6, 10),
            prob_rotation: Prob::new(1, 100),
            pop_size: 25,
            ind_size: 100,
            elitism: 1,
            num_gens: 100,
        }
    }
}

/// A fresh population of uniformly random genomes, each code drawn below
/// `2^bits_per_sym` so that every instruction is reachable and no code
/// addresses beyond the encoding.
pub fn create_rgep<S: Symbol, R: RandSource>(
    params: &RgepParams,
    context: &Context<S>,
    rng: &mut R,
) -> (pop: PopU8)
    requires
        params.valid(),
        context.valid(),
    ensures
        pop@.len() == params.pop_size,
        pop.well_formed(params.ind_size as nat),
        forall|i: int, j: int|
            0 <= i < pop@.len() && 0 <= j < params.ind_size ==> ((#[trigger] pop@[i][j]) as nat)
                < two_pow(context.bits_per_sym_spec()),
{
    let bits_needed = context.bits_per_sym();
    proof {
        assert((1u32 << (bits_needed as u32)) <= 256 && (1u32 << (bits_needed as u32)) >= 1)
            by (bit_vector)
            requires
                bits_needed <= 8,
        ;
        lemma_one_shl_is_two_pow(bits_needed as u32);
    }
    let range: u32 = 1u32 << (bits_needed as u32);
    let ghost bound = two_pow(context.bits_per_sym_spec());
    let mut genomes: Vec<Ind<u8>> = Vec::new();
    let mut p: usize = 0;
    while p < params.pop_size
        invariant
            p <= params.pop_size,
            genomes@.len() == p,
            1 <= range <= 256,
            range as nat == bound,
            forall|i: int|
                0 <= i < p ==> (#[trigger] genomes@[i])@.len() == params.ind_size,
            forall|i: int, j: int|
                0 <= i < p && 0 <= j < params.ind_size ==> ((#[trigger] genomes@[i]@[j]) as nat)
                    < bound,
        decreases params.pop_size - p,
    {
        let mut ind_vec: Vec<u8> = Vec::new();
        let mut w: usize = 0;
        while w < params.ind_size
            invariant
                w <= params.ind_size,
                ind_vec@.len() == w,
                1 <= range <= 256,
                range as nat == bound,
                forall|j: int| 0 <= j < w ==> ((#[trigger] ind_vec@[j]) as nat) < bound,
            decreases params.ind_size - w,
        {
            let word = rng.below(range as u64) as u8;
            ind_vec.push(word);
            w = w + 1;
        }
        genomes.push(Ind(ind_vec));
        p = p + 1;
    }
    Pop(genomes)
}

/// A population of all-zero genomes: the cheap way to build the alternate
/// selection buffer.
pub fn create_rgep_fast(params: &RgepParams) -> (pop: PopU8)
    requires
        params.valid(),
    ensures
        pop@.len() == params.pop_size,
        pop.well_formed(params.ind_size as nat),
        forall|i: int, j: int|
            0 <= i < pop@.len() && 0 <= j < params.ind_size ==> (#[trigger] pop@[i][j]) == 0,
{
    let mut genomes: Vec<Ind<u8>> = Vec::new();
    let mut p: usize = 0;
    while p < params.pop_size
        invariant
            p <= params.pop_size,
            genomes@.len() == p,
            forall|i: int|
                0 <= i < p ==> (#[trigger] genomes@[i])@.len() == params.ind_size,
            forall|i: int, j: int|
                0 <= i < p && 0 <= j < params.ind_size ==> (#[trigger] genomes@[i]@[j]) == 0,
        decreases params.pop_size - p,
    {
        let mut ind_vec: Vec<u8> = Vec::new();
        let mut w: usize = 0;
        while w < params.ind_size
            invariant
                w <= params.ind_size,
                ind_vec@.len() == w,
                forall|j: int| 0 <= j < w ==> (#[trigger] ind_vec@[j]) == 0,
            decreases params.ind_size - w,
        {
            ind_vec.push(0u8);
            w = w + 1;
        }
        genomes.push(Ind(ind_vec));
        p = p + 1;
    }
    Pop(genomes)
}

/// The caller-supplied fitness judge for compiled programs.  The score is
/// a 32-bit value so that whole-population totals cannot overflow; for a
/// reproducible run it must be deterministic given program, state, and
/// generator state.
pub trait ProgramEvaluator<S: Symbol, R: RandSource> {
    fn evaluate(&mut self, prog: &Program<S>, state: &mut S::State, rng: &mut R) -> u32;
}

/// Compile and evaluate every genome against a fresh clone of the
/// caller's state template, yielding the population's fitness vector.
pub fn rgep_evaluate<S, R, E>(
    pop: &PopU8,
    context: &Context<S>,
    state: &S::State,
    eval_prog: &mut E,
    rng: &mut R,
) -> (fitnesses: Vec<u64>)
    where S: Symbol, S::State: Clone, R: RandSource, E: ProgramEvaluator<S, R>
    requires
        context.valid(),
    ensures
        fitnesses@.len() == pop@.len(),
        forall|i: int| 0 <= i < fitnesses@.len() ==> (#[trigger] fitnesses@[i]) <= u32::MAX,
{
    let mut fitnesses: Vec<u64> = Vec::new();
    let mut prog: Program<S> = Program(Vec::new());
    let mut i: usize = 0;
    while i < pop.0.len()
        invariant
            i <= pop@.len(),
            context.valid(),
            fitnesses@.len() == i,
            forall|j: int| 0 <= j < i ==> (#[trigger] fitnesses@[j]) <= u32::MAX,
        decreases pop@.len() - i,
    {
        let mut local_state = state.clone();
        context.compile_to(&pop.0[i], &mut prog);
        let fitness = eval_prog.evaluate(&prog, &mut local_state, rng);
        fitnesses.push(fitness as u64);
        i = i + 1;
    }
    fitnesses
}

/// The gene-expression-programming loop: rotate, mutate, cross, evaluate
/// and select for `num_gens` generations, double-buffering the population.
/// Fails only if some generation's fitness vector sums to zero.
pub fn rgep<S, R, E>(
    params: &RgepParams,
    context: &Context<S>,
    state: &S::State,
    eval_ind: &mut E,
    rng: &mut R,
) -> (r: Result<PopU8, SelectionError>)
    where S: Symbol, S::State: Clone, R: RandSource, E: ProgramEvaluator<S, R>
    requires
        params.valid(),
        context.valid(),
    ensures
        params.num_gens == 0 ==> r is Ok,
        r is Ok ==> r->Ok_0@.len() == params.pop_size && r->Ok_0.well_formed(
            params.ind_size as nat,
        ),
{
    let mut pop = create_rgep(params, context, rng);
    let mut alt_pop = create_rgep_fast(params);
    let bits_per_sym = context.bits_per_sym();
    let mut gen: usize = 0;
    while gen < params.num_gens
        invariant
            gen <= params.num_gens,
            params.valid(),
            context.valid(),
            1 <= bits_per_sym <= 8,
            pop@.len() == params.pop_size,
            pop.well_formed(params.ind_size as nat),
            alt_pop@.len() == params.pop_size,
        decreases params.num_gens - gen,
    {
        proof {
            assert(pop@[0].len() == params.ind_size);
            assert(params.ind_size * bits_per_sym <= params.ind_size * 8) by (nonlinear_arith)
                requires
                    bits_per_sym <= 8,
                    params.ind_size >= 0,
            ;
        }
        rotation(&mut pop, params.prob_rotation, rng);
        let ghost rotated = pop@;
        point_mutation(&mut pop, bits_per_sym, params.prob_mut, rng);
        proof {
            assert forall|i: int| 0 <= i < pop.0@.len() implies (#[trigger] pop.0@[i])@.len()
                == params.ind_size by {
                assert(pop@[i].len() == rotated[i].len());
            }
            assert(pop.well_formed(params.ind_size as nat));
        }
        crossover_one_point(
            &mut pop,
            params.ind_size,
            bits_per_sym,
            params.prob_one_point_crossover,
            rng,
        );
        crossover_two_point(
            &mut pop,
            params.ind_size,
            bits_per_sym,
            params.prob_two_point_crossover,
            rng,
        );
        let fitnesses = rgep_evaluate(&pop, context, state, eval_ind, rng);
        proof {
            lemma_total_fitness_bounded(fitnesses@);
        }
        match stochastic_universal_sampling(&pop, &mut alt_pop, &fitnesses, params.elitism, rng) {
            Result::Ok(()) => {},
            Result::Err(e) => {
                return Result::Err(e);
            },
        }
        proof {
            let u = choose|u: int|
                0 <= u < crate::selection::total_fitness(fitnesses@)
                    && crate::selection::sus_selected(
                    pop@,
                    fitnesses@,
                    params.elitism as nat,
                    u,
                    alt_pop@,
                );
            lemma_k_elite_bounds(fitnesses@, params.elitism as nat);
            lemma_selection_conservation(pop@, fitnesses@, params.elitism as nat, u, alt_pop@);
            lemma_selection_members(pop@, fitnesses@, params.elitism as nat, u, alt_pop@);
            assert forall|i: int| 0 <= i < alt_pop@.len() implies (#[trigger] alt_pop.0@[i])@.len()
                == params.ind_size by {
                assert(from_population(pop@, alt_pop@[i]));
                let w = choose|w: int| 0 <= w < pop@.len() && alt_pop@[i] == pop@[w];
                assert(pop@[w].len() == params.ind_size);
            }
        }
        core::mem::swap(&mut pop, &mut alt_pop);
        gen = gen + 1;
    }
    Result::Ok(pop)
}

} // verus!
