use rgep::types::{Ind, Prob};
use rgep::sampling::{RandSource, SmallRngSource};
use rgep::rgep::{RgepParams, create_rgep, create_rgep_fast, rgep, rgep_evaluate, ProgramEvaluator};
use rgep::rgep::context::Context;
use rgep::rgep::program::Program;
use rgep::ga::{GaParams, ga, populationU8, populationU8Zeros};
use rgep::evaluation::Evaluator;
use rgep::point_mutation::point_mutation;
use rgep::ops::{zero_sym, one_sym, two_sym, plus_sym, WordSym};

fn small_context() -> Context<WordSym> {
    Context {
        terminals: vec![zero_sym(), one_sym(), two_sym()],
        functions: vec![plus_sym()],
        default: 0,
    }
}

#[test]
fn test_point_mutation_flips_bits() {
    let num_inds = 200;
    let num_words = 200;

    let params = RgepParams {
        prob_mut: Prob::new(1, 1000),
        prob_one_point_crossover: Prob::new(6, 10),
        prob_two_point_crossover: Prob::new(6, 10),
        prob_rotation: Prob::new(9, 10),
        pop_size: num_inds,
        ind_size: num_words,
        num_gens: 100,
        elitism: 0,
    };

    let context = small_context();

    let mut rng = SmallRngSource::from_seed(20240229);

    let mut pop = create_rgep(&params, &context, &mut rng);
    let bits_per_sym = context.bits_per_sym();
    point_mutation(&mut pop, bits_per_sym, params.prob_mut, &mut rng);

    let mut num_ones = 0u64;
    for ind in pop.0 {
        for code_word in ind.0 {
            for bit_index in 0..bits_per_sym {
                if code_word & (1 << bit_index) != 0 {
                    num_ones += 1;
                }
            }
        }
    }

    println!("num ones = {}", num_ones);
    let percent_ones = num_ones as f64 / (num_inds as f64 * num_words as f64
        * bits_per_sym as f64);
    println!("percent ones = {}", percent_ones);
    assert!(
        (percent_ones - 0.5).abs() < 0.005,
        "Percent ones was expected to be 0.5, but was {}",
        percent_ones,
    );
}

struct StackDepthJudge;

impl<R: RandSource> ProgramEvaluator<WordSym, R> for StackDepthJudge {
    fn evaluate(&mut self, prog: &Program<WordSym>, state: &mut u32, _rng: &mut R) -> u32 {
        let result = prog.eval(state, 0);
        result + 1
    }
}

#[test]
fn rgep_driver_runs_to_completion() {
    let params = RgepParams {
        prob_mut: Prob::new(1, 100),
        prob_one_point_crossover: Prob::new(6, 10),
        prob_two_point_crossover: Prob::new(6, 10),
        prob_rotation: Prob::new(1, 100),
        pop_size: 12,
        ind_size: 20,
        num_gens: 5,
        elitism: 1,
    };
    let context = small_context();
    let mut rng = SmallRngSource::from_seed(404);
    let mut judge = StackDepthJudge;
    let pop = rgep(&params, &context, &0, &mut judge, &mut rng).unwrap();
    assert_eq!(pop.0.len(), 12);
    for ind in pop.0.iter() {
        assert_eq!(ind.0.len(), 20);
    }
}

#[test]
fn rgep_evaluate_scores_every_genome() {
    let params = RgepParams {
        pop_size: 6,
        ind_size: 10,
        ..Default::default()
    };
    let context = small_context();
    let mut rng = SmallRngSource::from_seed(8);
    let pop = create_rgep(&params, &context, &mut rng);
    let mut judge = StackDepthJudge;
    let fitnesses = rgep_evaluate(&pop, &context, &0, &mut judge, &mut rng);
    assert_eq!(fitnesses.len(), 6);
    for f in fitnesses {
        assert!(f >= 1);
    }
}

#[test]
fn create_rgep_fast_is_all_zero() {
    let params = RgepParams {
        pop_size: 3,
        ind_size: 4,
        ..Default::default()
    };
    let pop = create_rgep_fast(&params);
    assert_eq!(pop.0.len(), 3);
    for ind in pop.0 {
        assert_eq!(ind.0, vec![0, 0, 0, 0]);
    }
}

struct ByteSumJudge;

impl<R: RandSource> Evaluator<R> for ByteSumJudge {
    fn evaluate(&mut self, ind: &Ind<u8>, _rng: &mut R) -> u32 {
        let mut sum: u32 = 0;
        for value in ind.0.iter() {
            sum = sum.wrapping_add(*value as u32);
        }
        sum + 1
    }
}

#[test]
fn ga_driver_runs_to_completion() {
    let params = GaParams {
        ind_size: 16,
        pop_size: 10,
        num_gens: 5,
        elitism: 1,
        prob_pm: Prob::new(1, 100),
        prob_pc1: Prob::new(6, 10),
    };
    let mut rng = SmallRngSource::from_seed(99);
    let mut judge = ByteSumJudge;
    let pop = ga(&params, &mut judge, &mut rng).unwrap();
    assert_eq!(pop.0.len(), 10);
    for ind in pop.0.iter() {
        assert_eq!(ind.0.len(), 16);
    }
}

#[test]
fn population_builders_have_declared_shape() {
    let mut rng = SmallRngSource::from_seed(1);
    let random = populationU8(4, 6, &mut rng);
    assert_eq!(random.0.len(), 4);
    for ind in random.0.iter() {
        assert_eq!(ind.0.len(), 6);
    }
    let zeros = populationU8Zeros(2, 3);
    assert_eq!(zeros.0, vec![Ind(vec![0, 0, 0]), Ind(vec![0, 0, 0])]);
}
