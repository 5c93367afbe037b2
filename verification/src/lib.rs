//! A small evolutionary-dynamics model: a population of cells budgets its
//! energy across eating, healing and reproduction, competes for a shared,
//! depleting food pool, and passes mutated copies of its heritable
//! parameters to its offspring. All quantities are fixed-point numbers held
//! in thousandths of a unit.

pub mod cell;
pub mod food_sources;
pub mod number_types;
pub mod world;
