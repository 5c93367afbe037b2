use evo2::food_sources::{ConstantFoodSource, FoodSource, LinearlyGrowingFoodSource};
use evo2::number_types::Amount;

#[test]
fn linearly_growing_food_source_grows_linearly() {
    let mut source = FoodSource::LinearlyGrowing(LinearlyGrowingFoodSource::new(
        Amount::new(100000),
        Amount::new(10000),
    ));
    assert_eq!(source.food_this_step(), Amount::new(100000));
    assert_eq!(source.food_this_step(), Amount::new(110000));
}

#[test]
fn constant_food_source_yields_the_same_amount_every_step() {
    let mut source = FoodSource::Constant(ConstantFoodSource::new(Amount::new(2000)));
    assert_eq!(source.food_this_step(), Amount::new(2000));
    assert_eq!(source.food_this_step(), Amount::new(2000));
}
