use physarum::model::{particles_per_population, population_ids, steer, turn_direction};
use rand::rngs::StdRng;
use rand::SeedableRng;
use std::cmp::Ordering::{Equal, Greater, Less};

#[test]
fn centre_dominating_keeps_heading() {
    assert_eq!(turn_direction(Some(Greater), Some(Greater), Some(Less), 1), 0);
    assert_eq!(turn_direction(Some(Greater), Some(Equal), Some(Less), 1), 0);
    assert_eq!(turn_direction(Some(Equal), Some(Greater), Some(Greater), -1), 0);
}

#[test]
fn trough_takes_tie_break() {
    assert_eq!(turn_direction(Some(Less), Some(Less), Some(Less), 1), 1);
    assert_eq!(turn_direction(Some(Less), Some(Less), Some(Greater), -1), -1);
}

#[test]
fn otherwise_turns_towards_larger_side() {
    assert_eq!(turn_direction(Some(Less), Some(Greater), Some(Greater), 1), -1);
    assert_eq!(turn_direction(Some(Greater), Some(Less), Some(Less), -1), 1);
    assert_eq!(turn_direction(Some(Equal), Some(Equal), Some(Equal), 1), 0);
    assert_eq!(turn_direction(None, None, None, 1), 0);
}

#[test]
fn steer_draws_a_side_only_at_a_trough() {
    let mut rng = StdRng::seed_from_u64(7);
    for _ in 0..32 {
        let d = steer(Some(Less), Some(Less), Some(Equal), &mut rng);
        assert!(d == -1 || d == 1);
    }
    assert_eq!(steer(Some(Less), Some(Equal), Some(Greater), &mut rng), -1);
    assert_eq!(steer(Some(Greater), Some(Greater), Some(Less), &mut rng), 0);
}

#[test]
fn steer_is_reproducible_for_a_seed() {
    let draw = |seed: u64| {
        let mut rng = StdRng::seed_from_u64(seed);
        (0..16)
            .map(|_| steer(Some(Less), Some(Less), None, &mut rng))
            .collect::<Vec<i8>>()
    };
    assert_eq!(draw(3), draw(3));
}

#[test]
fn particles_round_up_per_population() {
    assert_eq!(particles_per_population(10, 3), 4);
    assert_eq!(particles_per_population(9, 3), 3);
    assert_eq!(particles_per_population(0, 2), 0);
    assert_eq!(particles_per_population(20, 1), 20);
}

#[test]
fn population_ids_fill_blocks() {
    assert_eq!(population_ids(10, 3), vec![0, 0, 0, 0, 1, 1, 1, 1, 2, 2, 2, 2]);
    assert_eq!(population_ids(4, 2), vec![0, 0, 1, 1]);
    assert!(population_ids(0, 2).is_empty());
}
