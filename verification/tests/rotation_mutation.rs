use rgep::types::{Ind, Pop, Prob};
use rgep::rotation::{rotate_copy, rotate_naive, rotation};
use rgep::point_mutation::{point_mutate, point_mutate_naive, point_mutation};
use rgep::sampling::SmallRngSource;

#[test]
fn test_rotate() {
    let mut ind = Ind(vec![0, 1, 2, 3, 4]);

    let rotation_point = 3;

    rotate_naive(&mut ind, rotation_point);

    let expected = Ind(vec![2, 3, 4, 0, 1]);

    assert!(ind == expected, "{:?} != {:?}", ind, expected);
}

#[test]
fn test_rotate_copy() {
    let mut ind = Ind(vec![0, 1, 2, 3, 4]);
    let mut scratch = Vec::new();

    let rotation_point = 3;

    rotate_copy(&mut ind, &mut scratch, rotation_point);

    let expected = Ind(vec![3, 4, 0, 1, 2]);

    assert!(ind == expected, "{:?} != {:?}", ind, expected);
}

// Rotating by r and then by len - r restores the genome.
#[test]
fn rotation_round_trip() {
    let original = vec![9u8, 8, 7, 6, 5, 4, 3];
    for r in 0..7 {
        let mut ind = Ind(original.clone());
        let mut scratch = Vec::new();
        rotate_copy(&mut ind, &mut scratch, r);
        rotate_copy(&mut ind, &mut scratch, 7 - r);
        assert_eq!(ind.0, original);
    }
}

// The in-place walk agrees with the copy-based rotation when the offset is
// a multiple of the length (both are then the identity).
#[test]
fn rotate_naive_agrees_on_zero_offset() {
    let original = vec![1u8, 2, 3, 4, 5, 6];
    let mut a = Ind(original.clone());
    let mut b = Ind(original.clone());
    let mut scratch = Vec::new();
    rotate_naive(&mut a, 0);
    rotate_copy(&mut b, &mut scratch, 0);
    assert_eq!(a, b);
    assert_eq!(a.0, original);
}

#[test]
fn rotation_keeps_population_shape() {
    let mut rng = SmallRngSource::from_seed(11);
    let genomes: Vec<Ind<u8>> = (0..5).map(|i| Ind(vec![i as u8; 8])).collect();
    let mut pop = Pop(genomes);
    rotation(&mut pop, Prob::new(1, 2), &mut rng);
    assert_eq!(pop.0.len(), 5);
    for ind in pop.0.iter() {
        assert_eq!(ind.0.len(), 8);
    }
}

// A mutation with probability one flips every used bit; with probability
// zero (under the naive per-bit draw) it flips none.
#[test]
fn mutation_extremes() {
    let mut rng = SmallRngSource::from_seed(3);
    let mut all = Ind(vec![0u8; 6]);
    point_mutate_naive(&mut all, 4, Prob::new(1, 1), &mut rng);
    assert_eq!(all.0, vec![0x0F; 6]);

    let mut none = Ind(vec![0x3Au8; 6]);
    point_mutate_naive(&mut none, 8, Prob::new(0, 1), &mut rng);
    assert_eq!(none.0, vec![0x3A; 6]);
}

// The fast gap-driven mutation touches only the used low bits.
#[test]
fn fast_mutation_touches_only_used_bits() {
    let mut rng = SmallRngSource::from_seed(5);
    let mut ind = Ind(vec![0xF0u8; 32]);
    point_mutate(&mut ind, 4, Prob::new(1, 2), &mut rng);
    assert_eq!(ind.0.len(), 32);
    for word in ind.0.iter() {
        assert_eq!(word & 0xF0, 0xF0);
    }
}

#[test]
fn population_mutation_keeps_shape() {
    let mut rng = SmallRngSource::from_seed(13);
    let genomes: Vec<Ind<u8>> = (0..4).map(|_| Ind(vec![0u8; 16])).collect();
    let mut pop = Pop(genomes);
    point_mutation(&mut pop, 8, Prob::new(1, 10), &mut rng);
    assert_eq!(pop.0.len(), 4);
    for ind in pop.0.iter() {
        assert_eq!(ind.0.len(), 16);
    }
}
