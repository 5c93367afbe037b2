use vstd::prelude::*;

use std::rc::Rc;

use vstd::arithmetic::div_mod::{
    lemma_div_is_ordered, lemma_div_multiples_vanish, lemma_fundamental_div_mod,
    lemma_mod_division_less_than_divisor,
};
use vstd::arithmetic::div_mod::lemma_div_pos_is_pos;
use vstd::arithmetic::mul::{
    lemma_mul_inequality, lemma_mul_inequality_converse, lemma_mul_is_commutative,
    lemma_mul_is_distributive_add_other_way, lemma_mul_nonnegative,
};

use crate::number_types::{
    clip_sub, frac_add, frac_mul, lemma_mul_fits_u128, sat_add, scale_mul, Amount, Fraction, Rate,
    UNIT,
};

verus! {

/// Lineage-wide constants: shared by a founding cell and all of its
/// descendants through a reference-counted handle, and never mutated after
/// construction.
#[derive(Debug, PartialEq)]
pub struct CellConstants {
    pub create_child_energy: Amount,
    pub energy_yield_from_digestion: Amount,
    pub food_yield_from_eating: Amount,
    pub health_increase_per_healing_energy: Rate,
    pub health_reduction_from_entropy: Fraction,
    pub health_reduction_per_energy_expended: Rate,
    pub attempted_eating_energy_mutation_stdev: Amount,
    pub attempted_healing_energy_mutation_stdev: Amount,
    pub child_threshold_energy_mutation_stdev: Amount,
    pub child_threshold_food_mutation_stdev: Amount,
}

impl Default for CellConstants {
    fn default() -> (r: Self)
        ensures
            r.create_child_energy@ == 0,
            r.energy_yield_from_digestion@ == 0,
            r.food_yield_from_eating@ == 0,
            r.health_increase_per_healing_energy@ == 0,
            r.health_reduction_from_entropy@ == 0,
            r.health_reduction_per_energy_expended@ == 0,
            r.attempted_eating_energy_mutation_stdev@ == 0,
            r.attempted_healing_energy_mutation_stdev@ == 0,
            r.child_threshold_energy_mutation_stdev@ == 0,
            r.child_threshold_food_mutation_stdev@ == 0,
    {
        CellConstants {
            create_child_energy: Amount::new(0),
            energy_yield_from_digestion: Amount::new(0),
            food_yield_from_eating: Amount::new(0),
            health_increase_per_healing_energy: Rate::zero(),
            health_reduction_from_entropy: Fraction::zero(),
            health_reduction_per_energy_expended: Rate::zero(),
            attempted_eating_energy_mutation_stdev: Amount::new(0),
            attempted_healing_energy_mutation_stdev: Amount::new(0),
            child_threshold_energy_mutation_stdev: Amount::new(0),
            child_threshold_food_mutation_stdev: Amount::new(0),
        }
    }
}

/// Heritable per-agent parameters: copied to an offspring and then mutated.
#[derive(Clone, Copy, Debug, PartialEq)]
pub struct CellParams {
    pub attempted_eating_energy: Amount,
    pub attempted_healing_energy: Amount,
    pub child_threshold_energy: Amount,
    pub child_threshold_food: Amount,
}

impl Default for CellParams {
    /// The defaults ask for nothing and put reproduction out of reach.
    fn default() -> (r: Self)
        ensures
            r.attempted_eating_energy@ == 0,
            r.attempted_healing_energy@ == 0,
            r.child_threshold_energy@ == u64::MAX,
            r.child_threshold_food@ == u64::MAX,
    {
        CellParams {
            attempted_eating_energy: Amount::new(0),
            attempted_healing_energy: Amount::new(0),
            child_threshold_energy: Amount::new(u64::MAX),
            child_threshold_food: Amount::new(u64::MAX),
        }
    }
}

/// Per-agent mutable state.
#[derive(Clone, Copy, Debug, PartialEq)]
pub struct CellState {
    pub energy: Amount,
    pub health: Fraction,
}

impl Default for CellState {
    fn default() -> (r: Self)
        ensures
            r.energy@ == 0,
            r.health@ == UNIT,
    {
        CellState { energy: Amount::new(0), health: Fraction::one() }
    }
}

/// What a cell sees of the world in one tick: its share of the food pool.
pub struct CellEnvironment {
    pub food_per_cell: Amount,
}

impl Default for CellEnvironment {
    fn default() -> (r: Self)
        ensures
            r.food_per_cell@ == 0,
    {
        CellEnvironment { food_per_cell: Amount::new(0) }
    }
}

/// A source of perturbed values for the heritable parameters of an
/// offspring. Each implementation fixes, through `mutate_post`, the relation
/// between a call's arguments, its result and the source's next state.
pub trait MutationNumberSource: Sized {
    spec fn mutate_post(self, value: Amount, stdev: Amount, result: Amount, next: Self) -> bool;

    /// A perturbed copy of `value` with spread `stdev`. The result type has
    /// no negative values, so a mutated parameter is never negative.
    fn mutate(&mut self, value: Amount, stdev: Amount) -> (r: Amount)
        ensures
            old(self).mutate_post(value, stdev, r, *final(self)),
    ;
}

/// The identity source: hands every value back unchanged.
pub struct NullMutationNumberSource {}

impl NullMutationNumberSource {
    pub fn new() -> (r: Self) {
        NullMutationNumberSource {}
    }
}

impl MutationNumberSource for NullMutationNumberSource {
    open spec fn mutate_post(self, value: Amount, stdev: Amount, result: Amount, next: Self) -> bool {
        result == value
    }

    fn mutate(&mut self, value: Amount, stdev: Amount) -> (r: Amount) {
        value
    }
}

/// A deterministic source for exact-arithmetic assertions: shifts every
/// value up by its standard deviation.
pub struct AdditiveMutationNumberSource {}

impl AdditiveMutationNumberSource {
    pub fn new() -> (r: Self) {
        AdditiveMutationNumberSource {}
    }
}

impl MutationNumberSource for AdditiveMutationNumberSource {
    open spec fn mutate_post(self, value: Amount, stdev: Amount, result: Amount, next: Self) -> bool {
        result@ == sat_add(value@ as int, stdev@ as int)
    }

    fn mutate(&mut self, value: Amount, stdev: Amount) -> (r: Amount) {
        value.saturating_add(stdev)
    }
}

/// The four heritable parameters of `to`, obtained from those of `from` by
/// four successive draws from a mutation source that starts in state `m0`
/// and ends in state `m4`, each parameter with its own configured standard
/// deviation.
pub open spec fn spec_params_mutated<M: MutationNumberSource>(
    m0: M,
    m4: M,
    from: CellParams,
    constants: CellConstants,
    to: CellParams,
) -> bool {
    exists|m1: M, m2: M, m3: M|
        {
            &&& m0.mutate_post(
                from.attempted_eating_energy,
                constants.attempted_eating_energy_mutation_stdev,
                to.attempted_eating_energy,
                m1,
            )
            &&& m1.mutate_post(
                from.attempted_healing_energy,
                constants.attempted_healing_energy_mutation_stdev,
                to.attempted_healing_energy,
                m2,
            )
            &&& m2.mutate_post(
                from.child_threshold_energy,
                constants.child_threshold_energy_mutation_stdev,
                to.child_threshold_energy,
                m3,
            )
            &&& m3.mutate_post(
                from.child_threshold_food,
                constants.child_threshold_food_mutation_stdev,
                to.child_threshold_food,
                m4,
            )
        }
}

/// With the identity source, a mutated copy of the params is the params
/// themselves: an offspring of a cell stepped with that source inherits its
/// parent's params exactly.
pub proof fn lemma_null_mutation_keeps_params(
    m0: NullMutationNumberSource,
    m4: NullMutationNumberSource,
    from: CellParams,
    constants: CellConstants,
    to: CellParams,
)
    requires
        spec_params_mutated(m0, m4, from, constants, to),
    ensures
        to == from,
{
    let (m1, m2, m3): (
        NullMutationNumberSource,
        NullMutationNumberSource,
        NullMutationNumberSource,
    ) = choose|m1: NullMutationNumberSource, m2: NullMutationNumberSource, m3:
        NullMutationNumberSource|
        {
            &&& m0.mutate_post(
                from.attempted_eating_energy,
                constants.attempted_eating_energy_mutation_stdev,
                to.attempted_eating_energy,
                m1,
            )
            &&& m1.mutate_post(
                from.attempted_healing_energy,
                constants.attempted_healing_energy_mutation_stdev,
                to.attempted_healing_energy,
                m2,
            )
            &&& m2.mutate_post(
                from.child_threshold_energy,
                constants.child_threshold_energy_mutation_stdev,
                to.child_threshold_energy,
                m3,
            )
            &&& m3.mutate_post(
                from.child_threshold_food,
                constants.child_threshold_food_mutation_stdev,
                to.child_threshold_food,
                m4,
            )
        };
    assert(to.attempted_eating_energy == from.attempted_eating_energy);
    assert(to.attempted_healing_energy == from.attempted_healing_energy);
    assert(to.child_threshold_energy == from.child_threshold_energy);
    assert(to.child_threshold_food == from.child_threshold_food);
}

/// One agent: a shared handle to its lineage constants, its heritable
/// params, and its mutable state.
#[derive(Clone, Debug, PartialEq)]
pub struct Cell {
    pub constants: Rc<CellConstants>,
    pub params: CellParams,
    pub state: CellState,
}

impl Cell {
    /// The sum of the three desires of the first budgeting pass.
    pub open spec fn spec_wanted_with_reproduction(self) -> int {
        self.params.child_threshold_energy@ + self.params.attempted_eating_energy@
            + self.params.attempted_healing_energy@
    }

    /// The sum of the desires once reproduction has been ruled out.
    pub open spec fn spec_wanted_without_reproduction(self) -> int {
        self.params.attempted_eating_energy@ + self.params.attempted_healing_energy@
    }

    /// The reproduction share of the first budgeting pass.
    pub open spec fn spec_reproduction_budget(self) -> int {
        budget_share(
            self.params.child_threshold_energy@ as int,
            self.state.energy@ as int,
            self.spec_wanted_with_reproduction(),
        )
    }

    /// Whether a step of this cell against the food share `share` commits
    /// to reproduction: the budgeted reproduction energy meets the energy
    /// threshold and the share meets the food threshold.
    pub open spec fn spec_commits(self, share: int) -> bool {
        &&& self.spec_reproduction_budget() >= self.params.child_threshold_energy@
        &&& share >= self.params.child_threshold_food@
    }

    /// The eating energy granted for this step: from the first budgeting
    /// pass when reproduction is committed, else from the pass over eating
    /// and healing alone.
    pub open spec fn spec_eating_budget(self, share: int) -> int {
        if self.spec_commits(share) {
            budget_share(
                self.params.attempted_eating_energy@ as int,
                self.state.energy@ as int,
                self.spec_wanted_with_reproduction(),
            )
        } else {
            budget_share(
                self.params.attempted_eating_energy@ as int,
                self.state.energy@ as int,
                self.spec_wanted_without_reproduction(),
            )
        }
    }

    /// The healing energy granted for this step.
    pub open spec fn spec_healing_budget(self, share: int) -> int {
        if self.spec_commits(share) {
            budget_share(
                self.params.attempted_healing_energy@ as int,
                self.state.energy@ as int,
                self.spec_wanted_with_reproduction(),
            )
        } else {
            budget_share(
                self.params.attempted_healing_energy@ as int,
                self.state.energy@ as int,
                self.spec_wanted_without_reproduction(),
            )
        }
    }

    /// The total energy committed and expended in this step.
    pub open spec fn spec_total_spent(self, share: int) -> int {
        if self.spec_commits(share) {
            budget_total(self.state.energy@ as int, self.spec_wanted_with_reproduction())
        } else {
            budget_total(self.state.energy@ as int, self.spec_wanted_without_reproduction())
        }
    }

    /// The food this step consumes: the yield of the eating energy, capped
    /// by the cell's share of the pool.
    pub open spec fn spec_food_eaten(self, share: int) -> int {
        let gained = scale_mul(
            self.spec_eating_budget(share),
            self.constants.food_yield_from_eating@ as int,
        );
        if gained <= share {
            gained
        } else {
            share
        }
    }

    /// Energy after the step: what expending the committed total leaves,
    /// plus what digesting the eaten food yields.
    pub open spec fn spec_energy_after(self, share: int) -> int {
        sat_add(
            clip_sub(self.state.energy@ as int, self.spec_total_spent(share)),
            scale_mul(self.spec_food_eaten(share), self.constants.energy_yield_from_digestion@ as int),
        )
    }

    /// Health after the step: reduced by the cost of the expended energy,
    /// then by entropy, then raised by healing, each clipped to [0, UNIT].
    pub open spec fn spec_health_after(self, share: int) -> int {
        frac_add(
            clip_sub(
                clip_sub(
                    self.state.health@ as int,
                    frac_mul(
                        self.spec_total_spent(share),
                        self.constants.health_reduction_per_energy_expended@ as int,
                    ),
                ),
                self.constants.health_reduction_from_entropy@ as int,
            ),
            frac_mul(
                self.spec_healing_budget(share),
                self.constants.health_increase_per_healing_energy@ as int,
            ),
        )
    }

    /// The energy an offspring starts with: the budgeted reproduction
    /// energy, less the cost of creating a child.
    pub open spec fn spec_child_energy(self) -> int {
        clip_sub(self.spec_reproduction_budget(), self.constants.create_child_energy@ as int)
    }
}

proof fn lemma_budget_share_nonneg(desire: int, available: int, wanted: int)
    requires
        desire >= 0,
        available >= 0,
    ensures
        budget_share(desire, available, wanted) >= 0,
{
    if !(wanted <= available) {
        lemma_mul_nonnegative(desire, available);
        lemma_div_pos_is_pos(desire * available, wanted);
    }
}

proof fn lemma_scale_mul_nonneg(a: int, b: int)
    requires
        a >= 0,
        b >= 0,
    ensures
        scale_mul(a, b) >= 0,
        frac_mul(a, b) >= 0,
{
    lemma_mul_nonnegative(a, b);
    lemma_div_pos_is_pos(a * b, UNIT as int);
}

/// Invariant preservation: however a step goes, for any non-negative food
/// share, the cell's energy stays representable and its health stays within
/// [0, UNIT]: neither quantity can leave its domain.
pub proof fn lemma_step_preserves_bounds(cell: Cell, share: int)
    requires
        share >= 0,
    ensures
        0 <= cell.spec_energy_after(share) <= u64::MAX,
        0 <= cell.spec_health_after(share) <= UNIT,
{
    let e: int = cell.params.attempted_eating_energy@ as int;
    let h: int = cell.params.attempted_healing_energy@ as int;
    let a: int = cell.state.energy@ as int;
    lemma_budget_share_nonneg(e, a, cell.spec_wanted_with_reproduction());
    lemma_budget_share_nonneg(e, a, cell.spec_wanted_without_reproduction());
    lemma_budget_share_nonneg(h, a, cell.spec_wanted_with_reproduction());
    lemma_budget_share_nonneg(h, a, cell.spec_wanted_without_reproduction());
    lemma_scale_mul_nonneg(
        cell.spec_eating_budget(share),
        cell.constants.food_yield_from_eating@ as int,
    );
    lemma_scale_mul_nonneg(
        cell.spec_food_eaten(share),
        cell.constants.energy_yield_from_digestion@ as int,
    );
    lemma_scale_mul_nonneg(
        cell.spec_healing_budget(share),
        cell.constants.health_increase_per_healing_energy@ as int,
    );
}

/// The sum of the raw values of a sequence of amounts.
pub open spec fn sum_of(s: Seq<Amount>) -> int
    decreases s.len(),
{
    if s.len() == 0 {
        0
    } else {
        sum_of(s.drop_last()) + s.last()@
    }
}

proof fn lemma_sum_of_nonneg(s: Seq<Amount>)
    ensures
        sum_of(s) >= 0,
    decreases s.len(),
{
    if s.len() > 0 {
        lemma_sum_of_nonneg(s.drop_last());
    }
}

proof fn lemma_sum_of_take_step(s: Seq<Amount>, i: int)
    requires
        0 <= i < s.len(),
    ensures
        sum_of(s.take(i + 1)) == sum_of(s.take(i)) + s[i]@,
{
    assert(s.take(i + 1).drop_last() =~= s.take(i));
    assert(s.take(i + 1).last() == s[i]);
}

proof fn lemma_element_le_sum(s: Seq<Amount>, i: int)
    requires
        0 <= i < s.len(),
    ensures
        s[i]@ <= sum_of(s),
    decreases s.len(),
{
    if i == s.len() - 1 {
        lemma_sum_of_nonneg(s.drop_last());
    } else {
        lemma_element_le_sum(s.drop_last(), i);
    }
}

/// The total granted by the allocator: the whole request when it can be
/// met, everything available otherwise.
pub open spec fn budget_total(available: int, wanted: int) -> int {
    if wanted <= available {
        wanted
    } else {
        available
    }
}

/// One request's grant: the request itself when the sum of requests can be
/// met, otherwise the request scaled by available/wanted (the same factor
/// for every requester).
pub open spec fn budget_share(desire: int, available: int, wanted: int) -> int {
    if wanted <= available {
        desire
    } else {
        desire * available / wanted
    }
}

/// Rations `available` across the `desired` requests: every request is met
/// in full when their sum allows it, otherwise all are scaled by the common
/// factor available/sum(desired). The grants never sum to more than what is
/// available, and a zero request sum grants zero to everyone.
pub fn budget(available: Amount, desired: &Vec<Amount>) -> (r: (Amount, Vec<Amount>))
    ensures
        r.1@.len() == desired@.len(),
        r.0@ == budget_total(available@ as int, sum_of(desired@)),
        forall|i: int|
            0 <= i < desired@.len() ==> (#[trigger] r.1@[i])@ == budget_share(
                desired@[i]@ as int,
                available@ as int,
                sum_of(desired@),
            ),
        sum_of(r.1@) <= available@,
{
    let n: usize = desired.len();
    let avail: u64 = available.value();

    proof {
        assert((n as int) * (u64::MAX as int) < u128::MAX as int) by (nonlinear_arith)
            requires
                0 <= n as int <= u64::MAX as int,
        ;
    }
    let mut wanted: u128 = 0;
    let mut i: usize = 0;
    while i < n
        invariant
            i <= n,
            n == desired@.len(),
            n as int <= u64::MAX as int,
            wanted as int == sum_of(desired@.take(i as int)),
            wanted as int <= (i as int) * (u64::MAX as int),
            (n as int) * (u64::MAX as int) < u128::MAX as int,
        decreases n - i,
    {
        let d: u64 = desired[i].value();
        proof {
            lemma_sum_of_take_step(desired@, i as int);
        }
        wanted = wanted + (d as u128);
        i = i + 1;
    }
    proof {
        assert(desired@.take(n as int) =~= desired@);
    }

    if wanted <= (avail as u128) {
        let mut granted: Vec<Amount> = Vec::new();
        let mut j: usize = 0;
        while j < n
            invariant
                j <= n,
                n == desired@.len(),
                granted@.len() == j as int,
                forall|k: int| 0 <= k < j as int ==> granted@[k] == desired@[k],
            decreases n - j,
        {
            let d: Amount = desired[j];
            granted.push(d);
            j = j + 1;
        }
        proof {
            assert(granted@ =~= desired@);
        }
        (Amount::new(wanted as u64), granted)
    } else {
        let w: u128 = wanted;
        let ghost w_int: int = w as int;
        let ghost a_int: int = avail as int;
        let mut granted: Vec<Amount> = Vec::new();
        let mut j: usize = 0;
        while j < n
            invariant
                j <= n,
                n == desired@.len(),
                avail == available@,
                w as int == w_int,
                avail as int == a_int,
                w_int == sum_of(desired@),
                w_int > a_int >= 0,
                granted@.len() == j as int,
                forall|k: int|
                    0 <= k < j as int ==> (#[trigger] granted@[k])@ == desired@[k]@ * a_int / w_int,
                sum_of(granted@) >= 0,
                sum_of(granted@) * w_int <= sum_of(desired@.take(j as int)) * a_int,
            decreases n - j,
        {
            let ghost sum_g0: int = sum_of(granted@);
            let ghost take_j: int = sum_of(desired@.take(j as int));
            let d: u64 = desired[j].value();
            proof {
                lemma_mul_fits_u128(d, avail);
                lemma_element_le_sum(desired@, j as int);  // d <= w
                lemma_mul_inequality(d as int, w_int, a_int);  // d*a <= w*a
                lemma_div_is_ordered((d as int) * a_int, w_int * a_int, w_int);
                lemma_div_multiples_vanish(a_int, w_int);  // (w*a)/w == a
            }
            let g128: u128 = (d as u128) * (avail as u128) / w;
            proof {
                assert(g128 as int == (d as int) * a_int / w_int);
                assert(g128 <= avail as u128);
            }
            let g: u64 = g128 as u64;
            let ghost gr0: Seq<Amount> = granted@;
            granted.push(Amount::new(g));
            proof {
                assert(granted@.drop_last() =~= gr0);
                assert(sum_of(granted@) == sum_g0 + g);
                // g * w <= d * a, from the division's remainder being non-negative
                lemma_fundamental_div_mod((d as int) * a_int, w_int);
                lemma_mod_division_less_than_divisor((d as int) * a_int, w_int);
                lemma_mul_is_commutative(w_int, g as int);
                assert((g as int) * w_int <= (d as int) * a_int);
                // (sum_g0 + g) * w == sum_g0 * w + g * w
                lemma_mul_is_distributive_add_other_way(w_int, sum_g0, g as int);
                // sum after this element, on the desired side
                lemma_sum_of_take_step(desired@, j as int);
                lemma_mul_is_distributive_add_other_way(a_int, take_j, d as int);
                assert(sum_of(granted@) * w_int <= sum_of(desired@.take(j as int + 1)) * a_int);
            }
            j = j + 1;
        }
        proof {
            assert(desired@.take(n as int) =~= desired@);
            lemma_mul_is_commutative(w_int, a_int);
            lemma_mul_inequality_converse(sum_of(granted@), a_int, w_int);
        }
        (Amount::new(avail), granted)
    }
}

/// The three energy grants of one budgeting pass.
struct CellEnergies {
    reproduction: Amount,
    eating: Amount,
    healing: Amount,
}

impl Cell {
    pub fn new(constants: &Rc<CellConstants>, params: CellParams) -> (r: Cell)
        ensures
            r.constants == *constants,
            r.params == params,
            r.state.energy@ == 0,
            r.state.health@ == UNIT,
    {
        Cell { constants: constants.clone(), params, state: CellState::default() }
    }

    pub fn with_health(self, health: Fraction) -> (r: Cell)
        ensures
            r.constants == self.constants,
            r.params == self.params,
            r.state.energy == self.state.energy,
            r.state.health == health,
    {
        Cell { state: CellState { health, ..self.state }, ..self }
    }

    pub fn with_energy(self, energy: Amount) -> (r: Cell)
        ensures
            r.constants == self.constants,
            r.params == self.params,
            r.state.energy == energy,
            r.state.health == self.state.health,
    {
        Cell { state: CellState { energy, ..self.state }, ..self }
    }

    pub fn health(&self) -> (r: Fraction)
        ensures
            r == self.state.health,
    {
        self.state.health
    }

    pub fn energy(&self) -> (r: Amount)
        ensures
            r == self.state.energy,
    {
        self.state.energy
    }

    /// A cell lives while its health is above zero; energy may reach zero
    /// without killing it.
    pub fn is_alive(&self) -> (r: bool)
        ensures
            r == (self.state.health@ > 0),
    {
        self.state.health.value() > 0
    }

    /// One tick of this cell: budget its energy over reproduction, eating
    /// and healing, expend the committed total, eat and digest, decay by
    /// entropy, heal, and reproduce when both thresholds are met.
    pub fn step<M: MutationNumberSource>(
        &mut self,
        mutation_number_source: &mut M,
        environment: &CellEnvironment,
    ) -> (r: (Option<Cell>, Amount))
        ensures
            final(self).constants == old(self).constants,
            final(self).params == old(self).params,
            final(self).state.energy@ == old(self).spec_energy_after(environment.food_per_cell@ as int),
            final(self).state.health@ == old(self).spec_health_after(environment.food_per_cell@ as int),
            r.1@ == old(self).spec_food_eaten(environment.food_per_cell@ as int),
            r.1@ <= environment.food_per_cell@,
            (r.0 is Some <==> old(self).spec_commits(environment.food_per_cell@ as int)),
            (r.0 matches Some(child) ==> {
                &&& child.constants == old(self).constants
                &&& child.state.health@ == UNIT
                &&& child.state.energy@ == old(self).spec_child_energy()
                &&& spec_params_mutated(
                    *old(mutation_number_source),
                    *final(mutation_number_source),
                    old(self).params,
                    *old(self).constants,
                    child.params,
                )
            }),
            !old(self).spec_commits(environment.food_per_cell@ as int) ==> *final(mutation_number_source) == *old(
                mutation_number_source,
            ),
    {
        let (total_budgeted, budgeted_energies, child) = self.budget_and_maybe_reproduce(
            mutation_number_source,
            environment,
        );

        self.expend_energy(total_budgeted);

        let food = self.eat(budgeted_energies.eating, environment.food_per_cell);
        self.digest(food);
        self.entropy();
        self.heal(budgeted_energies.healing);

        (child, food)
    }

    fn budget_and_maybe_reproduce<M: MutationNumberSource>(
        &self,
        mutation_number_source: &mut M,
        environment: &CellEnvironment,
    ) -> (r: (Amount, CellEnergies, Option<Cell>))
        ensures
            r.0@ == self.spec_total_spent(environment.food_per_cell@ as int),
            r.1.eating@ == self.spec_eating_budget(environment.food_per_cell@ as int),
            r.1.healing@ == self.spec_healing_budget(environment.food_per_cell@ as int),
            (r.2 is Some <==> self.spec_commits(environment.food_per_cell@ as int)),
            (r.2 matches Some(child) ==> {
                &&& child.constants == self.constants
                &&& child.state.health@ == UNIT
                &&& child.state.energy@ == self.spec_child_energy()
                &&& spec_params_mutated(
                    *old(mutation_number_source),
                    *final(mutation_number_source),
                    self.params,
                    *self.constants,
                    child.params,
                )
            }),
            !self.spec_commits(environment.food_per_cell@ as int) ==> *final(mutation_number_source) == *old(
                mutation_number_source,
            ),
    {
        let (total_budgeted, budgeted_energies) = self.budget_including_reproduction();
        if self.can_reproduce(budgeted_energies.reproduction, environment) {
            let child = self.reproduce(budgeted_energies.reproduction, mutation_number_source);
            (total_budgeted, budgeted_energies, child)
        } else {
            let (total_budgeted, budgeted_energies) = self.budget_excluding_reproduction();
            (total_budgeted, budgeted_energies, None)
        }
    }

    fn budget_including_reproduction(&self) -> (r: (Amount, CellEnergies))
        ensures
            r.0@ == budget_total(self.state.energy@ as int, self.spec_wanted_with_reproduction()),
            r.1.reproduction@ == self.spec_reproduction_budget(),
            r.1.eating@ == budget_share(
                self.params.attempted_eating_energy@ as int,
                self.state.energy@ as int,
                self.spec_wanted_with_reproduction(),
            ),
            r.1.healing@ == budget_share(
                self.params.attempted_healing_energy@ as int,
                self.state.energy@ as int,
                self.spec_wanted_with_reproduction(),
            ),
    {
        let mut desired: Vec<Amount> = Vec::new();
        desired.push(self.params.child_threshold_energy);
        desired.push(self.params.attempted_eating_energy);
        desired.push(self.params.attempted_healing_energy);
        let (total_budgeted, granted) = budget(self.state.energy, &desired);
        proof {
            let s = desired@;
            assert(s.drop_last().drop_last().drop_last() =~= Seq::<Amount>::empty());
            assert(sum_of(s.drop_last().drop_last().drop_last()) == 0);
            assert(sum_of(s.drop_last().drop_last()) == s[0]@);
            assert(sum_of(s.drop_last()) == s[0]@ + s[1]@);
            assert(sum_of(s) == s[0]@ + s[1]@ + s[2]@);
            assert(sum_of(s) == self.spec_wanted_with_reproduction());
        }
        let energies = CellEnergies {
            reproduction: granted[0],
            eating: granted[1],
            healing: granted[2],
        };
        (total_budgeted, energies)
    }

    fn budget_excluding_reproduction(&self) -> (r: (Amount, CellEnergies))
        ensures
            r.0@ == budget_total(
                self.state.energy@ as int,
                self.spec_wanted_without_reproduction(),
            ),
            r.1.reproduction@ == 0,
            r.1.eating@ == budget_share(
                self.params.attempted_eating_energy@ as int,
                self.state.energy@ as int,
                self.spec_wanted_without_reproduction(),
            ),
            r.1.healing@ == budget_share(
                self.params.attempted_healing_energy@ as int,
                self.state.energy@ as int,
                self.spec_wanted_without_reproduction(),
            ),
    {
        let mut desired: Vec<Amount> = Vec::new();
        desired.push(self.params.attempted_eating_energy);
        desired.push(self.params.attempted_healing_energy);
        let (total_budgeted, granted) = budget(self.state.energy, &desired);
        proof {
            let s = desired@;
            assert(s.drop_last().drop_last() =~= Seq::<Amount>::empty());
            assert(sum_of(s.drop_last().drop_last()) == 0);
            assert(sum_of(s.drop_last()) == s[0]@);
            assert(sum_of(s) == s[0]@ + s[1]@);
            assert(sum_of(s) == self.spec_wanted_without_reproduction());
        }
        let energies = CellEnergies {
            reproduction: Amount::new(0),
            eating: granted[0],
            healing: granted[1],
        };
        (total_budgeted, energies)
    }

    fn can_reproduce(&self, reproduction_energy: Amount, environment: &CellEnvironment) -> (b:
        bool)
        ensures
            b == (reproduction_energy@ >= self.params.child_threshold_energy@
                && environment.food_per_cell@ >= self.params.child_threshold_food@),
    {
        reproduction_energy.value() >= self.params.child_threshold_energy.value()
            && environment.food_per_cell.value() >= self.params.child_threshold_food.value()
    }

    fn reproduce<M: MutationNumberSource>(
        &self,
        reproduction_energy: Amount,
        mutation_number_source: &mut M,
    ) -> (child: Option<Cell>)
        ensures
            child is Some,
            (child matches Some(c) ==> {
                &&& c.constants == self.constants
                &&& c.state.health@ == UNIT
                &&& c.state.energy@ == clip_sub(
                    reproduction_energy@ as int,
                    self.constants.create_child_energy@ as int,
                )
                &&& spec_params_mutated(
                    *old(mutation_number_source),
                    *final(mutation_number_source),
                    self.params,
                    *self.constants,
                    c.params,
                )
            }),
    {
        let mut child = Cell {
            constants: self.constants.clone(),
            params: self.params,
            state: self.state,
        };
        child.mutate(mutation_number_source);
        child.state.health = Fraction::one();
        child.state.energy = reproduction_energy.clipped_sub(self.constants.create_child_energy);
        Some(child)
    }

    fn mutate<M: MutationNumberSource>(&mut self, mutation_number_source: &mut M)
        ensures
            final(self).constants == old(self).constants,
            final(self).state == old(self).state,
            spec_params_mutated(
                *old(mutation_number_source),
                *final(mutation_number_source),
                old(self).params,
                *old(self).constants,
                final(self).params,
            ),
    {
        let ghost m0: M = *mutation_number_source;
        self.params.attempted_eating_energy = mutation_number_source.mutate(
            self.params.attempted_eating_energy,
            self.constants.attempted_eating_energy_mutation_stdev,
        );
        let ghost m1: M = *mutation_number_source;
        self.params.attempted_healing_energy = mutation_number_source.mutate(
            self.params.attempted_healing_energy,
            self.constants.attempted_healing_energy_mutation_stdev,
        );
        let ghost m2: M = *mutation_number_source;
        self.params.child_threshold_energy = mutation_number_source.mutate(
            self.params.child_threshold_energy,
            self.constants.child_threshold_energy_mutation_stdev,
        );
        let ghost m3: M = *mutation_number_source;
        self.params.child_threshold_food = mutation_number_source.mutate(
            self.params.child_threshold_food,
            self.constants.child_threshold_food_mutation_stdev,
        );
        proof {
            assert(m0.mutate_post(
                old(self).params.attempted_eating_energy,
                old(self).constants.attempted_eating_energy_mutation_stdev,
                self.params.attempted_eating_energy,
                m1,
            ));
            assert(m1.mutate_post(
                old(self).params.attempted_healing_energy,
                old(self).constants.attempted_healing_energy_mutation_stdev,
                self.params.attempted_healing_energy,
                m2,
            ));
            assert(m2.mutate_post(
                old(self).params.child_threshold_energy,
                old(self).constants.child_threshold_energy_mutation_stdev,
                self.params.child_threshold_energy,
                m3,
            ));
            assert(m3.mutate_post(
                old(self).params.child_threshold_food,
                old(self).constants.child_threshold_food_mutation_stdev,
                self.params.child_threshold_food,
                *mutation_number_source,
            ));
        }
    }

    fn eat(&self, eating_energy: Amount, food_per_cell: Amount) -> (food: Amount)
        ensures
            food@ == ({
                let gained = scale_mul(
                    eating_energy@ as int,
                    self.constants.food_yield_from_eating@ as int,
                );
                if gained <= food_per_cell@ {
                    gained
                } else {
                    food_per_cell@ as int
                }
            }),
    {
        eating_energy.times(self.constants.food_yield_from_eating).min(food_per_cell)
    }

    fn digest(&mut self, food_amount: Amount)
        ensures
            final(self).constants == old(self).constants,
            final(self).params == old(self).params,
            final(self).state.health == old(self).state.health,
            final(self).state.energy@ == sat_add(
                old(self).state.energy@ as int,
                scale_mul(
                    food_amount@ as int,
                    old(self).constants.energy_yield_from_digestion@ as int,
                ),
            ),
    {
        self.state.energy = self.state.energy.saturating_add(
            food_amount.times(self.constants.energy_yield_from_digestion),
        );
    }

    fn entropy(&mut self)
        ensures
            final(self).constants == old(self).constants,
            final(self).params == old(self).params,
            final(self).state.energy == old(self).state.energy,
            final(self).state.health@ == clip_sub(
                old(self).state.health@ as int,
                old(self).constants.health_reduction_from_entropy@ as int,
            ),
    {
        self.state.health = self.state.health.sub_clipped(
            self.constants.health_reduction_from_entropy,
        );
    }

    fn heal(&mut self, healing_energy: Amount)
        ensures
            final(self).constants == old(self).constants,
            final(self).params == old(self).params,
            final(self).state.energy == old(self).state.energy,
            final(self).state.health@ == frac_add(
                old(self).state.health@ as int,
                frac_mul(
                    healing_energy@ as int,
                    old(self).constants.health_increase_per_healing_energy@ as int,
                ),
            ),
    {
        self.state.health = self.state.health.add_clipped(
            self.constants.health_increase_per_healing_energy.times(healing_energy),
        );
    }

    fn expend_energy(&mut self, energy: Amount)
        ensures
            final(self).constants == old(self).constants,
            final(self).params == old(self).params,
            final(self).state.energy@ == clip_sub(old(self).state.energy@ as int, energy@ as int),
            final(self).state.health@ == clip_sub(
                old(self).state.health@ as int,
                frac_mul(
                    energy@ as int,
                    old(self).constants.health_reduction_per_energy_expended@ as int,
                ),
            ),
    {
        self.state.energy = self.state.energy.clipped_sub(energy);
        self.state.health = self.state.health.sub_clipped(
            self.constants.health_reduction_per_energy_expended.times(energy),
        );
    }
}

} // verus!
