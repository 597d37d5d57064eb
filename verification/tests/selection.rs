use rgep::types::{Ind, Pop, Prob};
use rgep::selection::{
    SelectionError, k_elite, select_stochastic_universal, select_stochastic_universal_naive,
    stochastic_universal_sampling, tournament_selection, tournament_winner,
};
use rgep::evaluation::fittest;
use rgep::sampling::SmallRngSource;

fn small_pop() -> Pop<u8> {
    Pop((0..5).map(|i| Ind(vec![i as u8; 4])).collect())
}

#[test]
fn k_elite_ranks_by_fitness_then_order() {
    let fitnesses = vec![3u64, 9, 9, 1, 7];
    let elite = k_elite(&fitnesses, 3);
    // fittest first; the tie between the two nines breaks by encounter order
    assert_eq!(elite, vec![1, 2, 4]);

    // more elites than genomes: every index, ranked
    let all = k_elite(&fitnesses, 10);
    assert_eq!(all, vec![1, 2, 4, 0, 3]);

    assert_eq!(k_elite(&fitnesses, 0), Vec::<usize>::new());
}

// Selection emits exactly pop_size genomes, and every elite index appears.
#[test]
fn selection_conserves_size_and_elites() {
    let pop = small_pop();
    let fitnesses = vec![0u64, 50, 0, 1, 49];
    let elite = k_elite(&fitnesses, 2);
    assert_eq!(elite, vec![1, 4]);

    let result = select_stochastic_universal_naive(&pop, &fitnesses, 2, 30).unwrap();
    assert_eq!(result.0.len(), 5);
    for e in elite {
        assert!(result.0.iter().any(|ind| *ind == pop.0[e]));
    }
    // genome 3 has a tiny share and genome 1 a huge one: the zero-fitness
    // genomes can only enter through elitism, and they are not elite here
    assert!(!result.0.iter().any(|ind| *ind == pop.0[0]));
    assert!(!result.0.iter().any(|ind| *ind == pop.0[2]));
}

// Without elitism the sweep's counts are exact: a genome holding the whole
// fitness mass fills the entire next generation.
#[test]
fn selection_sweep_counts_are_exact() {
    let pop = small_pop();
    let fitnesses = vec![0u64, 0, 10, 0, 0];
    let mut dest = small_pop();
    select_stochastic_universal(&pop, &mut dest, &fitnesses, 0, 4).unwrap();
    for ind in dest.0.iter() {
        assert_eq!(*ind, pop.0[2]);
    }
}

// Equal fitness shares with a mid-span offset give one copy each; an
// offset of zero lands both sweep points in the first genome's span.
#[test]
fn selection_sweep_boundary_behavior() {
    let pop = Pop(vec![Ind(vec![1u8; 2]), Ind(vec![2u8; 2])]);
    let fitnesses = vec![1u64, 1];

    let even = select_stochastic_universal_naive(&pop, &fitnesses, 0, 1).unwrap();
    assert_eq!(even.0, vec![Ind(vec![1u8; 2]), Ind(vec![2u8; 2])]);

    let skewed = select_stochastic_universal_naive(&pop, &fitnesses, 0, 0).unwrap();
    assert_eq!(skewed.0, vec![Ind(vec![1u8; 2]), Ind(vec![1u8; 2])]);
}

#[test]
fn selection_fails_on_zero_total_fitness() {
    let pop = small_pop();
    let fitnesses = vec![0u64; 5];
    let mut dest = small_pop();
    let r = select_stochastic_universal(&pop, &mut dest, &fitnesses, 1, 0);
    assert_eq!(r, Err(SelectionError::ZeroTotalFitness));

    let mut rng = SmallRngSource::from_seed(2);
    let r2 = stochastic_universal_sampling(&pop, &mut dest, &fitnesses, 1, &mut rng);
    assert_eq!(r2, Err(SelectionError::ZeroTotalFitness));
}

#[test]
fn sampled_selection_conserves_size() {
    let pop = small_pop();
    let fitnesses = vec![5u64, 1, 8, 2, 4];
    let mut dest = small_pop();
    let mut rng = SmallRngSource::from_seed(21);
    stochastic_universal_sampling(&pop, &mut dest, &fitnesses, 1, &mut rng).unwrap();
    assert_eq!(dest.0.len(), 5);
    for ind in dest.0.iter() {
        assert!(pop.0.iter().any(|p| p == ind));
    }
}

#[test]
fn tournament_keeps_elite_slots() {
    let pop = small_pop();
    let fitnesses = vec![1u64, 2, 30, 4, 5];
    let mut dest = small_pop();
    let mut rng = SmallRngSource::from_seed(17);
    tournament_selection(&pop, &mut dest, &fitnesses, Prob::new(7, 10), 3, 1, &mut rng);
    assert_eq!(dest.0.len(), 5);
    // index 2 is the single elite: its slot keeps its genome
    assert_eq!(dest.0[2], pop.0[2]);
    for ind in dest.0.iter() {
        assert!(pop.0.iter().any(|p| p == ind));
    }
}

// The ranked walk: the fittest entrant wins on the first accept; each
// refusal removes the current fittest; with every draw refused the last
// entrant left wins.
#[test]
fn tournament_winner_walks_ranks() {
    let fitnesses = vec![10u64, 40, 20, 30];
    let entrants = vec![0usize, 1, 2, 3];

    // first rank accepted: the fittest entrant (index 1) wins
    assert_eq!(tournament_winner(&entrants, &fitnesses, &vec![true, false, false, false]), 1);

    // first refused, second accepted: the next fittest (index 3) wins
    assert_eq!(tournament_winner(&entrants, &fitnesses, &vec![false, true, false, false]), 3);

    // everything refused: the weakest entrant (index 0) is left and wins
    assert_eq!(tournament_winner(&entrants, &fitnesses, &vec![false, false, false, false]), 0);

    // a fitness tie keeps the earlier entrant first
    let tied = vec![5u64, 5];
    assert_eq!(tournament_winner(&vec![0usize, 1], &tied, &vec![true, false]), 0);
}

#[test]
fn fittest_picks_first_maximum() {
    assert_eq!(fittest(&vec![0u64, 5, 5, 3]), 1);
    assert_eq!(fittest(&vec![0u64, 0, 0]), 0);
    assert_eq!(fittest(&vec![7u64]), 0);
}
