use rgep::types::{Ind, Pop, Prob};
use rgep::crossover::{
    cross_at_point, cross_at_points, cross_at_points_naive, cross_word, crossover_one_point,
    crossover_two_point,
};
use rgep::sampling::SmallRngSource;

#[test]
fn test_cross_at_point() {
    let mut ind1 = Ind(vec![0xF, 0xF, 0xF, 0xF, 0xF]);
    let mut ind2 = Ind(vec![0x0, 0x0, 0x0, 0x0, 0x0]);

    cross_at_point(&mut ind1, &mut ind2, 4, 10);
    assert!(ind1 == Ind(vec![0, 0, 0xC, 0xF, 0xF]));
    assert!(ind2 == Ind(vec![0xF, 0xF, 0x3, 0x0, 0x0]));
}

#[test]
fn test_cross_at_points() {
    let mut ind1 = Ind(vec![0x00, 0x00, 0x00, 0x00, 0x00]);
    let mut ind2 = Ind(vec![0x0F, 0x0F, 0x0F, 0x0F, 0x0F]);

    let points = vec![1, 6];
    cross_at_points(&mut ind1, &mut ind2, 4, &points);
    assert!(ind1 == Ind(vec![0x01, 0x03, 0x0F, 0x0F, 0x0F]));
    assert!(ind2 == Ind(vec![0x0E, 0x0C, 0x00, 0x00, 0x00]));
}

#[test]
fn test_cross_at_points_naive() {
    let mut ind1 = Ind(vec![0x00, 0x00, 0x00, 0x00, 0x00]);
    let mut ind2 = Ind(vec![0x0F, 0x0F, 0x0F, 0x0F, 0x0F]);

    let points = vec![1, 6];
    cross_at_points_naive(&mut ind1, &mut ind2, 4, &points);
    assert!(ind1 == Ind(vec![0x01, 0x03, 0x0F, 0x0F, 0x0F]));
    assert!(ind2 == Ind(vec![0x0E, 0x0C, 0x00, 0x00, 0x00]));
}

#[test]
fn test_cross_word() {
    let (first, second) = cross_word(0xff, 0x00, 4);
    assert!(first == 0xF0, "was {:b}, expected {:b}", first, 0xF0);
    assert!(second == 0x0F, "was {:b}, expected {:b}", second, 0x0F);
}

// The fast and the reference multi-point crossover agree word for word.
#[test]
fn naive_and_fast_crossover_agree() {
    let cases: Vec<(Vec<u8>, Vec<u8>, usize, Vec<usize>)> = vec![
        (vec![0x12, 0x34, 0x56, 0x78], vec![0xAB, 0xCD, 0xEF, 0x01], 4, vec![2, 9]),
        (vec![0xFF; 8], vec![0x00; 8], 4, vec![1, 8, 17, 25]),
        (vec![0x55; 6], vec![0xAA; 6], 8, vec![3, 12, 21, 40]),
        (vec![0x0F, 0xF0, 0x3C], vec![0xC3, 0x5A, 0xA5], 8, vec![5]),
        (vec![0x01, 0x02, 0x03], vec![0x04, 0x05, 0x06], 4, vec![]),
    ];
    for (a, b, bits, points) in cases {
        let mut fast1 = Ind(a.clone());
        let mut fast2 = Ind(b.clone());
        cross_at_points(&mut fast1, &mut fast2, bits, &points);

        let mut slow1 = Ind(a.clone());
        let mut slow2 = Ind(b.clone());
        cross_at_points_naive(&mut slow1, &mut slow2, bits, &points);

        assert_eq!(fast1, slow1);
        assert_eq!(fast2, slow2);
    }
}

// Crossing a pair at one point twice restores the original pair.
#[test]
fn one_point_crossover_is_self_inverse() {
    let a0 = vec![0x12, 0x34, 0x56, 0x78, 0x9A];
    let b0 = vec![0xDE, 0xAD, 0xBE, 0xEF, 0x55];
    for cross_point in 0..40 {
        let mut a = Ind(a0.clone());
        let mut b = Ind(b0.clone());
        cross_at_point(&mut a, &mut b, 8, cross_point);
        cross_at_point(&mut a, &mut b, 8, cross_point);
        assert_eq!(a, Ind(a0.clone()));
        assert_eq!(b, Ind(b0.clone()));
    }
}

#[test]
fn population_crossover_keeps_shape() {
    let mut rng = SmallRngSource::from_seed(7);
    let genomes: Vec<Ind<u8>> = (0..7).map(|i| Ind(vec![i as u8; 10])).collect();
    let mut pop = Pop(genomes.clone());
    crossover_one_point(&mut pop, 10, 8, Prob::new(6, 10), &mut rng);
    assert_eq!(pop.0.len(), 7);
    for ind in pop.0.iter() {
        assert_eq!(ind.0.len(), 10);
    }
    // the unpaired trailing genome is untouched
    assert_eq!(pop.0[6], genomes[6]);

    let mut pop2 = Pop(genomes.clone());
    crossover_two_point(&mut pop2, 10, 8, Prob::new(6, 10), &mut rng);
    assert_eq!(pop2.0.len(), 7);
    for ind in pop2.0.iter() {
        assert_eq!(ind.0.len(), 10);
    }
    assert_eq!(pop2.0[6], genomes[6]);
}
