use std::rc::Rc;

use rand::rngs::ThreadRng;
use rand_distr::{Distribution, Normal};

use evo2::cell::{CellConstants, MutationNumberSource};
use evo2::number_types::Amount;
use evo2::world::{generate_cells, NormalParams};

/// A stochastic mutation source: draws from a normal distribution centered
/// on the value, resampling until the draw is representable.
struct RandomMutationNumberSource {
    rng: ThreadRng,
}

impl RandomMutationNumberSource {
    fn new() -> Self {
        RandomMutationNumberSource { rng: rand::thread_rng() }
    }
}

impl MutationNumberSource for RandomMutationNumberSource {
    fn mutate_post(self, _value: Amount, _stdev: Amount, _result: Amount, _next: Self) -> bool {
        // the stochastic source promises nothing of its draws
        true
    }

    fn mutate(&mut self, value: Amount, stdev: Amount) -> Amount {
        let normal = Normal::new(value.value() as f64, stdev.value() as f64).unwrap();
        loop {
            let drawn: f64 = normal.sample(&mut self.rng);
            if (0.0..=(u64::MAX as f64)).contains(&drawn) {
                return Amount::new(drawn as u64);
            }
        }
    }
}

#[test]
fn generate_cells_with_normal_energy_distribution() {
    let constants = Rc::new(CellConstants::default());
    let mut mutation_number_source = RandomMutationNumberSource::new();
    let cells = generate_cells(
        100,
        &mut mutation_number_source,
        NormalParams::new(Amount::new(100000), Amount::new(5000)),
        NormalParams::new(Amount::new(0), Amount::new(0)),
        NormalParams::new(Amount::new(0), Amount::new(0)),
        NormalParams::new(Amount::new(0), Amount::new(0)),
        NormalParams::new(Amount::new(u64::MAX), Amount::new(0)),
        &constants,
    );
    assert!(cells.iter().map(|cell| cell.energy()).any(|e| e.value() < 100000));
    assert!(cells.iter().map(|cell| cell.energy()).any(|e| e.value() > 100000));
}

#[test]
fn random_mutation_never_returns_an_unrepresentable_value() {
    let mut mutation_number_source = RandomMutationNumberSource::new();
    for _ in 0..200 {
        let mutated = mutation_number_source.mutate(Amount::new(2000), Amount::new(100000));
        assert!(mutated.value() <= u64::MAX);
    }
}

#[test]
fn random_mutation_with_spread_perturbs_the_value() {
    let mut mutation_number_source = RandomMutationNumberSource::new();
    let mut changed = false;
    for _ in 0..50 {
        let mutated = mutation_number_source.mutate(Amount::new(1000000), Amount::new(100000));
        if mutated != Amount::new(1000000) {
            changed = true;
        }
    }
    assert!(changed);
}

#[test]
fn random_mutation_with_no_spread_keeps_the_value() {
    let mut mutation_number_source = RandomMutationNumberSource::new();
    let mutated = mutation_number_source.mutate(Amount::new(12345), Amount::new(0));
    assert_eq!(mutated, Amount::new(12345));
}
