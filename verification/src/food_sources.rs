use vstd::prelude::*;

use crate::number_types::{sat_add, Amount};

verus! {

/// A supply that yields the same amount every tick.
#[derive(Clone, Copy, Debug, PartialEq)]
pub struct ConstantFoodSource {
    pub food_per_step: Amount,
}

impl ConstantFoodSource {
    pub fn new(food_per_step: Amount) -> (r: ConstantFoodSource)
        ensures
            r.food_per_step == food_per_step,
    {
        ConstantFoodSource { food_per_step }
    }
}

/// A supply that grows by a fixed increment after every poll, whether or
/// not the previous yield was consumed.
#[derive(Clone, Copy, Debug, PartialEq)]
pub struct LinearlyGrowingFoodSource {
    pub next_food: Amount,
    pub food_increase_per_step: Amount,
}

impl LinearlyGrowingFoodSource {
    pub fn new(starting_food: Amount, food_increase_per_step: Amount) -> (r:
        LinearlyGrowingFoodSource)
        ensures
            r.next_food == starting_food,
            r.food_increase_per_step == food_increase_per_step,
    {
        LinearlyGrowingFoodSource { next_food: starting_food, food_increase_per_step }
    }
}

/// The food supplies a world can hold, as one closed sum. Each is polled
/// once per tick; polling may advance the source's internal state.
#[derive(Clone, Copy, Debug, PartialEq)]
pub enum FoodSource {
    Constant(ConstantFoodSource),
    LinearlyGrowing(LinearlyGrowingFoodSource),
}

impl FoodSource {
    /// What polling this source now would yield.
    pub open spec fn spec_yield(self) -> int {
        match self {
            FoodSource::Constant(s) => s.food_per_step@ as int,
            FoodSource::LinearlyGrowing(s) => s.next_food@ as int,
        }
    }

    /// How one poll advances a source: a constant source is unchanged, a
    /// growing one raises its next yield by its per-step increase.
    pub open spec fn spec_advances_to(self, next: FoodSource) -> bool {
        match (self, next) {
            (FoodSource::Constant(a), FoodSource::Constant(b)) => a == b,
            (FoodSource::LinearlyGrowing(a), FoodSource::LinearlyGrowing(b)) => {
                &&& b.next_food@ == sat_add(a.next_food@ as int, a.food_increase_per_step@ as int)
                &&& b.food_increase_per_step == a.food_increase_per_step
            },
            _ => false,
        }
    }

    /// This tick's food from this source; the call advances the source.
    pub fn food_this_step(&mut self) -> (r: Amount)
        ensures
            r@ == old(self).spec_yield(),
            old(self).spec_advances_to(*final(self)),
    {
        let current: FoodSource = *self;
        match current {
            FoodSource::Constant(s) => s.food_per_step,
            FoodSource::LinearlyGrowing(s) => {
                let result = s.next_food;
                *self = FoodSource::LinearlyGrowing(
                    LinearlyGrowingFoodSource {
                        next_food: s.next_food.saturating_add(s.food_increase_per_step),
                        food_increase_per_step: s.food_increase_per_step,
                    },
                );
                result
            },
        }
    }
}

} // verus!
