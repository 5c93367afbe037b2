use std::rc::Rc;

use evo2::cell::{Cell, CellConstants, CellParams, NullMutationNumberSource};
use evo2::food_sources::{ConstantFoodSource, FoodSource, LinearlyGrowingFoodSource};
use evo2::number_types::{Amount, Fraction, Rate};
use evo2::world::World;

#[test]
fn world_counts_both_living_and_dead_cells() {
    let constants = Rc::new(CellConstants::default());
    let world = World::new().with_cells(vec![
        Cell::new(&constants, CellParams::default()).with_energy(Amount::new(1000)),
        Cell::new(&constants, CellParams::default()).with_energy(Amount::new(0)),
        Cell::new(&constants, CellParams::default()).with_energy(Amount::new(1000)),
    ]);
    assert_eq!(world.num_cells(), 3);
}

#[test]
fn world_mean_energy_with_no_cells_is_zero() {
    assert_eq!(World::new().mean_energy(), Amount::new(0));
}

#[test]
fn world_calculates_mean_energy() {
    let constants = Rc::new(CellConstants::default());
    let world = World::new().with_cells(vec![
        Cell::new(&constants, CellParams::default()).with_energy(Amount::new(1000)),
        Cell::new(&constants, CellParams::default()).with_energy(Amount::new(2000)),
    ]);
    assert_eq!(world.mean_energy(), Amount::new(1500));
}

#[test]
fn world_calculates_mean_health() {
    let constants = Rc::new(CellConstants::default());
    let world = World::new().with_cells(vec![
        Cell::new(&constants, CellParams::default()).with_health(Fraction::checked(500)),
        Cell::new(&constants, CellParams::default()).with_health(Fraction::one()),
    ]);
    assert_eq!(world.mean_health(), Fraction::checked(750));
}

#[test]
fn world_adds_new_cells() {
    let constants = Rc::new(CellConstants::default());
    let mut world = World::new().with_food(Amount::new(0)).with_cells(vec![
        Cell::new(
            &constants,
            CellParams {
                child_threshold_energy: Amount::new(4000),
                child_threshold_food: Amount::new(0),
                ..CellParams::default()
            },
        )
        .with_energy(Amount::new(10000)),
    ]);
    let mut mutation_number_source = NullMutationNumberSource::new();
    world.step(&mut mutation_number_source);
    assert_eq!(world.num_cells(), 2);
}

#[test]
fn world_reports_num_added() {
    let constants = Rc::new(CellConstants::default());
    let params = CellParams {
        child_threshold_energy: Amount::new(4000),
        child_threshold_food: Amount::new(0),
        ..CellParams::default()
    };
    let mut world = World::new().with_food(Amount::new(0)).with_cells(vec![
        Cell::new(&constants, params).with_energy(Amount::new(10000)),
        Cell::new(&constants, params).with_energy(Amount::new(10000)),
    ]);
    let mut mutation_number_source = NullMutationNumberSource::new();
    let (num_added, _) = world.step(&mut mutation_number_source);
    assert_eq!(num_added, 2);
}

#[test]
fn world_removes_dead_cells() {
    let constants = Rc::new(CellConstants::default());
    let mut world = World::new().with_food(Amount::new(0)).with_cells(vec![
        Cell::new(&constants, CellParams::default()).with_health(Fraction::one()),
        Cell::new(&constants, CellParams::default()).with_health(Fraction::checked(0)),
    ]);
    let mut mutation_number_source = NullMutationNumberSource::new();
    world.step(&mut mutation_number_source);
    assert_eq!(world.num_cells(), 1);
}

#[test]
fn world_reports_num_died() {
    let constants = Rc::new(CellConstants {
        health_reduction_per_energy_expended: Rate::checked(200),
        ..CellConstants::default()
    });
    let hungry_params = CellParams {
        attempted_eating_energy: Amount::new(5000),
        ..CellParams::default()
    };
    let mut world = World::new().with_cells(vec![
        Cell::new(&constants, CellParams::default()).with_energy(Amount::new(10000)),
        Cell::new(&constants, hungry_params).with_energy(Amount::new(5000)),
        Cell::new(&constants, hungry_params).with_energy(Amount::new(5000)),
    ]);
    let mut mutation_number_source = NullMutationNumberSource::new();
    let (_, num_died) = world.step(&mut mutation_number_source);
    assert_eq!(num_died, 2);
}

#[test]
fn population_count_reaches_zero_after_fatal_expenditure() {
    let constants = Rc::new(CellConstants {
        health_reduction_per_energy_expended: Rate::checked(1000),
        ..CellConstants::default()
    });
    let params = CellParams {
        attempted_eating_energy: Amount::new(10000),
        ..CellParams::default()
    };
    let mut cells = Vec::new();
    for _ in 0..10 {
        cells.push(Cell::new(&constants, params).with_energy(Amount::new(10000)));
    }
    let mut world = World::new().with_cells(cells);
    let mut mutation_number_source = NullMutationNumberSource::new();
    let (_, num_died) = world.step(&mut mutation_number_source);
    assert_eq!(num_died, 10);
    assert_eq!(world.num_cells(), 0);
}

#[test]
fn cells_consume_world_food() {
    let constants = Rc::new(CellConstants {
        food_yield_from_eating: Amount::new(1000),
        ..CellConstants::default()
    });
    let mut world = World::new().with_food(Amount::new(10000)).with_cells(vec![
        Cell::new(
            &constants,
            CellParams { attempted_eating_energy: Amount::new(2000), ..CellParams::default() },
        )
        .with_energy(Amount::new(10000)),
        Cell::new(
            &constants,
            CellParams { attempted_eating_energy: Amount::new(3000), ..CellParams::default() },
        )
        .with_energy(Amount::new(10000)),
    ]);
    let mut mutation_number_source = NullMutationNumberSource::new();
    world.step(&mut mutation_number_source);
    assert_eq!(world.food().value(), 5000);
}

#[test]
fn cells_cannot_consume_more_than_their_share_of_world_food() {
    let constants = Rc::new(CellConstants {
        food_yield_from_eating: Amount::new(1000),
        ..CellConstants::default()
    });
    let mut world = World::new().with_food(Amount::new(4000)).with_cells(vec![
        Cell::new(
            &constants,
            CellParams { attempted_eating_energy: Amount::new(3000), ..CellParams::default() },
        )
        .with_energy(Amount::new(10000)),
        Cell::new(
            &constants,
            CellParams { attempted_eating_energy: Amount::new(1000), ..CellParams::default() },
        )
        .with_energy(Amount::new(10000)),
    ]);
    let mut mutation_number_source = NullMutationNumberSource::new();
    world.step(&mut mutation_number_source);
    assert_eq!(world.food().value(), 1000);
}

#[test]
fn food_sources_add_to_world_food() {
    let mut world = World::new().with_food(Amount::new(0)).with_food_sources(vec![
        FoodSource::Constant(ConstantFoodSource::new(Amount::new(2000))),
        FoodSource::Constant(ConstantFoodSource::new(Amount::new(3000))),
    ]);
    let mut mutation_number_source = NullMutationNumberSource::new();
    world.step(&mut mutation_number_source);
    assert_eq!(world.food().value(), 5000);
}

#[test]
fn world_food_grows_with_a_growing_source() {
    let mut world = World::new().with_food(Amount::new(0)).with_food_sources(vec![
        FoodSource::LinearlyGrowing(LinearlyGrowingFoodSource::new(
            Amount::new(1000),
            Amount::new(500),
        )),
    ]);
    let mut mutation_number_source = NullMutationNumberSource::new();
    world.step(&mut mutation_number_source);
    assert_eq!(world.food().value(), 1000);
    world.step(&mut mutation_number_source);
    assert_eq!(world.food().value(), 2500);
}

#[test]
fn world_with_cell_appends_to_the_population() {
    let constants = Rc::new(CellConstants::default());
    let world = World::new()
        .with_cell(Cell::new(&constants, CellParams::default()))
        .with_cell(Cell::new(&constants, CellParams::default()));
    assert_eq!(world.num_cells(), 2);
    assert_eq!(world.cell(0).health(), Fraction::one());
}
