use vstd::prelude::*;

use std::rc::Rc;

use vstd::arithmetic::div_mod::{
    lemma_div_is_ordered, lemma_div_multiples_vanish, lemma_fundamental_div_mod,
    lemma_mod_division_less_than_divisor,
};
use vstd::arithmetic::mul::lemma_mul_inequality;

use crate::cell::{Cell, CellConstants, CellEnvironment, CellParams, MutationNumberSource};
use crate::food_sources::FoodSource;
use crate::number_types::{sat_add, Amount, Fraction, UNIT};

verus! {

/// The world: an unordered population of cells (membership and count
/// matter, order does not), a shared food pool, and the food sources that
/// replenish it once per tick.
pub struct World {
    pub cells: Vec<Cell>,
    pub food: Amount,
    pub food_sources: Vec<FoodSource>,
}

/// The food pool after polling each of `sources` once, left to right,
/// starting from `food`.
pub open spec fn spec_polled_food(food: int, sources: Seq<FoodSource>) -> int
    decreases sources.len(),
{
    if sources.len() == 0 {
        food
    } else {
        spec_polled_food(sat_add(food, sources.first().spec_yield()), sources.drop_first())
    }
}

/// Every source of `post` is the once-advanced image of its counterpart in
/// `pre`.
pub open spec fn spec_sources_advanced(pre: Seq<FoodSource>, post: Seq<FoodSource>) -> bool {
    &&& post.len() == pre.len()
    &&& forall|i: int| 0 <= i < pre.len() ==> pre[i].spec_advances_to(#[trigger] post[i])
}

/// The food the cells of `cells` eat in one tick, each against the share
/// `share`.
pub open spec fn spec_total_eaten(cells: Seq<Cell>, share: int) -> int
    decreases cells.len(),
{
    if cells.len() == 0 {
        0
    } else {
        spec_total_eaten(cells.drop_last(), share) + cells.last().spec_food_eaten(share)
    }
}

/// How many of `cells` commit to reproduction against the share `share`.
pub open spec fn spec_num_born(cells: Seq<Cell>, share: int) -> int
    decreases cells.len(),
{
    if cells.len() == 0 {
        0
    } else {
        spec_num_born(cells.drop_last(), share) + if cells.last().spec_commits(share) {
            1int
        } else {
            0int
        }
    }
}

/// How many of `cells` end the tick with zero health.
pub open spec fn spec_num_dead(cells: Seq<Cell>, share: int) -> int
    decreases cells.len(),
{
    if cells.len() == 0 {
        0
    } else {
        spec_num_dead(cells.drop_last(), share) + if cells.last().spec_health_after(share) == 0 {
            1int
        } else {
            0int
        }
    }
}

/// The sum of the cells' energies.
pub open spec fn spec_sum_energy(cells: Seq<Cell>) -> int
    decreases cells.len(),
{
    if cells.len() == 0 {
        0
    } else {
        spec_sum_energy(cells.drop_last()) + cells.last().state.energy@
    }
}

/// The sum of the cells' healths.
pub open spec fn spec_sum_health(cells: Seq<Cell>) -> int
    decreases cells.len(),
{
    if cells.len() == 0 {
        0
    } else {
        spec_sum_health(cells.drop_last()) + cells.last().state.health@
    }
}

/// `post` is `pre` after one tick against the share `share`.
pub open spec fn spec_is_stepped(pre: Cell, share: int, post: Cell) -> bool {
    &&& post.constants == pre.constants
    &&& post.params == pre.params
    &&& post.state.energy@ == pre.spec_energy_after(share)
    &&& post.state.health@ == pre.spec_health_after(share)
}

/// `post` is the stepped image of `pre` and came through the tick alive.
pub open spec fn spec_is_stepped_survivor(pre: Cell, share: int, post: Cell) -> bool {
    &&& spec_is_stepped(pre, share, post)
    &&& pre.spec_health_after(share) > 0
}

/// `post` is an offspring born of `pre` in this tick: full health, the
/// budgeted reproduction energy less the creation cost, and the parent's
/// constants. Its params are a mutated copy of the parent's, pinned per
/// call by the mutation source's own contract.
pub open spec fn spec_is_child_of(pre: Cell, share: int, post: Cell) -> bool {
    &&& pre.spec_commits(share)
    &&& post.constants == pre.constants
    &&& post.state.health@ == UNIT
    &&& post.state.energy@ == pre.spec_child_energy()
}

/// `post` descends from `pre` through this tick: either as `pre`'s stepped,
/// surviving image, or as an offspring `pre` bore.
pub open spec fn spec_came_from(pre: Cell, share: int, post: Cell) -> bool {
    spec_is_stepped_survivor(pre, share, post) || spec_is_child_of(pre, share, post)
}

/// Every cell of `post` already stood somewhere in `pre`.
spec fn spec_members_from(post: Seq<Cell>, pre: Seq<Cell>) -> bool {
    forall|j: int| 0 <= j < post.len() ==> pre.contains(#[trigger] post[j])
}

proof fn lemma_members_refl(s: Seq<Cell>)
    ensures
        spec_members_from(s, s),
{
    assert forall|j: int| 0 <= j < s.len() implies s.contains(#[trigger] s[j]) by {
        s.lemma_index_contains(j);
    };
}

proof fn lemma_members_swap_remove(pre: Seq<Cell>, idx: int, orig: Seq<Cell>)
    requires
        spec_members_from(pre, orig),
        0 <= idx < pre.len(),
    ensures
        spec_members_from(pre.update(idx, pre.last()).drop_last(), orig),
{
    let post = pre.update(idx, pre.last()).drop_last();
    assert forall|j: int| 0 <= j < post.len() implies orig.contains(#[trigger] post[j]) by {
        if j == idx {
            assert(post[j] == pre[pre.len() - 1]);
            assert(orig.contains(pre[pre.len() - 1]));
        } else {
            assert(post[j] == pre[j]);
            assert(orig.contains(pre[j]));
        }
    };
}

impl World {
    pub fn new() -> (r: World)
        ensures
            r.cells@.len() == 0,
            r.food@ == 0,
            r.food_sources@.len() == 0,
    {
        World { cells: Vec::new(), food: Amount::new(0), food_sources: Vec::new() }
    }

    pub fn with_cells(self, cells: Vec<Cell>) -> (r: World)
        ensures
            r.cells == cells,
            r.food == self.food,
            r.food_sources == self.food_sources,
    {
        World { cells, ..self }
    }

    pub fn with_cell(self, cell: Cell) -> (r: World)
        ensures
            r.cells@ == self.cells@.push(cell),
            r.food == self.food,
            r.food_sources == self.food_sources,
    {
        let mut w = self;
        w.cells.push(cell);
        w
    }

    pub fn with_food(self, food: Amount) -> (r: World)
        ensures
            r.cells == self.cells,
            r.food == food,
            r.food_sources == self.food_sources,
    {
        World { food, ..self }
    }

    pub fn with_food_sources(self, food_sources: Vec<FoodSource>) -> (r: World)
        ensures
            r.cells == self.cells,
            r.food == self.food,
            r.food_sources == food_sources,
    {
        World { food_sources, ..self }
    }

    pub fn cell(&self, index: usize) -> (r: &Cell)
        requires
            index < self.cells@.len(),
        ensures
            *r == self.cells@[index as int],
    {
        &self.cells[index]
    }

    pub fn num_cells(&self) -> (r: usize)
        ensures
            r == self.cells@.len(),
    {
        self.cells.len()
    }

    pub fn food(&self) -> (r: Amount)
        ensures
            r == self.food,
    {
        self.food
    }

    /// The mean of the cells' healths, rounded down; zero for an empty
    /// population.
    pub fn mean_health(&self) -> (r: Fraction)
        ensures
            self.cells@.len() == 0 ==> r@ == 0,
            self.cells@.len() > 0 ==> r@ == spec_sum_health(self.cells@) / self.cells@.len() as int,
    {
        let n: usize = self.cells.len();
        if n == 0 {
            return Fraction::zero();
        }
        let mut sum: u128 = 0;
        let mut i: usize = 0;
        while i < n
            invariant
                i <= n,
                n == self.cells@.len(),
                sum as int == spec_sum_health(self.cells@.take(i as int)),
                sum as int <= (i as int) * (UNIT as int),
            decreases n - i,
        {
            proof {
                lemma_sum_health_take_step(self.cells@, i as int);
            }
            let h: u64 = self.cells[i].state.health.value();
            sum = sum + (h as u128);
            i = i + 1;
        }
        proof {
            assert(self.cells@.take(n as int) =~= self.cells@);
            lemma_div_is_ordered(sum as int, (n as int) * (UNIT as int), n as int);
            lemma_div_multiples_vanish(UNIT as int, n as int);
            lemma_sum_health_nonneg(self.cells@);
        }
        let mean: u128 = sum / (n as u128);
        Fraction::checked(mean as u64)
    }

    /// The mean of the cells' energies, rounded down; zero for an empty
    /// population.
    pub fn mean_energy(&self) -> (r: Amount)
        ensures
            self.cells@.len() == 0 ==> r@ == 0,
            self.cells@.len() > 0 ==> r@ == spec_sum_energy(self.cells@) / self.cells@.len() as int,
    {
        let n: usize = self.cells.len();
        if n == 0 {
            return Amount::new(0);
        }
        let mut sum: u128 = 0;
        let mut i: usize = 0;
        while i < n
            invariant
                i <= n,
                n == self.cells@.len(),
                sum as int == spec_sum_energy(self.cells@.take(i as int)),
                sum as int <= (i as int) * (u64::MAX as int),
            decreases n - i,
        {
            proof {
                lemma_sum_energy_take_step(self.cells@, i as int);
                assert((n as int) * (u64::MAX as int) < u128::MAX as int) by (nonlinear_arith)
                    requires
                        0 <= n as int <= u64::MAX as int,
                ;
            }
            let e: u64 = self.cells[i].state.energy.value();
            sum = sum + (e as u128);
            i = i + 1;
        }
        proof {
            assert(self.cells@.take(n as int) =~= self.cells@);
            lemma_div_is_ordered(sum as int, (n as int) * (u64::MAX as int), n as int);
            lemma_div_multiples_vanish(u64::MAX as int, n as int);
            lemma_sum_energy_nonneg(self.cells@);
        }
        let mean: u128 = sum / (n as u128);
        Amount::new(mean as u64)
    }

    /// One tick: poll every food source into the pool, give every cell its
    /// equal share of the pool, step every cell, collect the newborns,
    /// charge the pool for what was eaten, and remove the dead. Returns how
    /// many cells were born and how many died. With no cells the tick only
    /// polls the sources.
    fn step_food_sources(&mut self)
        ensures
            final(self).cells@ == old(self).cells@,
            spec_sources_advanced(old(self).food_sources@, final(self).food_sources@),
            final(self).food@ == spec_polled_food(old(self).food@ as int, old(self).food_sources@),
    {
        let ghost food0: int = self.food@ as int;
        let ghost sources0: Seq<FoodSource> = self.food_sources@;
        let ghost cells0: Seq<Cell> = self.cells@;
        let n: usize = self.food_sources.len();
        proof {
            assert(self.food_sources@.subrange(0, n as int) =~= self.food_sources@);
        }
        let mut i: usize = 0;
        while i < n
            invariant
                i <= n,
                n == self.food_sources@.len(),
                sources0.len() == n,
                self.cells@ == cells0,
                spec_polled_food(food0, sources0) == spec_polled_food(
                    self.food@ as int,
                    self.food_sources@.subrange(i as int, n as int),
                ),
                forall|k: int|
                    0 <= k < i as int ==> sources0[k].spec_advances_to(
                        #[trigger] self.food_sources@[k],
                    ),
                forall|k: int| i as int <= k < n ==> self.food_sources@[k] == sources0[k],
            decreases n - i,
        {
            let ghost pre_food: int = self.food@ as int;
            let ghost pre_sources: Seq<FoodSource> = self.food_sources@;
            let gain: Amount = self.food_sources[i].food_this_step();
            self.food = self.food.saturating_add(gain);
            proof {
                assert(pre_sources.subrange(i as int, n as int).first() == sources0[i as int]);
                assert(pre_sources.subrange(i as int, n as int).drop_first() =~= pre_sources
                    .subrange(i as int + 1, n as int));
                assert(self.food_sources@.subrange(i as int + 1, n as int) =~= pre_sources.subrange(
                    i as int + 1,
                    n as int,
                ));
            }
            i = i + 1;
        }
        proof {
            assert(self.food_sources@.subrange(n as int, n as int) =~= Seq::<FoodSource>::empty());
        }
    }

    fn step_cells<M: MutationNumberSource>(
        &mut self,
        mutation_number_source: &mut M,
        environment: &CellEnvironment,
        new_cells: &mut Vec<Cell>,
        dead_cell_indexes: &mut Vec<usize>,
    )
        requires
            old(new_cells)@.len() == 0,
            old(dead_cell_indexes)@.len() == 0,
            old(self).cells@.len() > 0,
            environment.food_per_cell@ as int == old(self).food@ as int / old(
                self,
            ).cells@.len() as int,
        ensures
            final(self).food_sources@ == old(self).food_sources@,
            final(self).cells@.len() == old(self).cells@.len(),
            forall|i: int|
                0 <= i < old(self).cells@.len() ==> spec_is_stepped(
                    old(self).cells@[i],
                    environment.food_per_cell@ as int,
                    #[trigger] final(self).cells@[i],
                ),
            spec_total_eaten(old(self).cells@, environment.food_per_cell@ as int) <= old(
                self,
            ).food@ as int,
            final(self).food@ as int == old(self).food@ as int - spec_total_eaten(
                old(self).cells@,
                environment.food_per_cell@ as int,
            ),
            final(new_cells)@.len() == spec_num_born(
                old(self).cells@,
                environment.food_per_cell@ as int,
            ),
            forall|j: int|
                0 <= j < final(new_cells)@.len() ==> exists|i: int|
                    0 <= i < old(self).cells@.len() && spec_is_child_of(
                        old(self).cells@[i],
                        environment.food_per_cell@ as int,
                        #[trigger] final(new_cells)@[j],
                    ),
            final(dead_cell_indexes)@.len() == spec_num_dead(
                old(self).cells@,
                environment.food_per_cell@ as int,
            ),
            forall|a: int, b: int|
                0 <= a < b < final(dead_cell_indexes)@.len() ==> final(dead_cell_indexes)@[a]
                    < final(dead_cell_indexes)@[b],
            forall|k: int|
                0 <= k < final(dead_cell_indexes)@.len()
                    ==> ((#[trigger] final(dead_cell_indexes)@[k]) as int) < old(self).cells@.len(),
            forall|k: int|
                0 <= k < final(dead_cell_indexes)@.len()
                    ==> old(self).cells@[(#[trigger] final(dead_cell_indexes)@[k]) as int]
                        .spec_health_after(environment.food_per_cell@ as int) == 0,
            forall|i: int|
                0 <= i < old(self).cells@.len() && (#[trigger] old(self).cells@[i])
                    .spec_health_after(environment.food_per_cell@ as int) == 0
                    ==> spec_listed_before(
                    final(dead_cell_indexes)@,
                    final(dead_cell_indexes)@.len() as int,
                    i,
                ),
    {
        let ghost cells0: Seq<Cell> = self.cells@;
        let ghost share: int = environment.food_per_cell@ as int;
        let ghost food0: int = self.food@ as int;
        let n: usize = self.cells.len();
        proof {
            lemma_fundamental_div_mod(food0, n as int);
            lemma_mod_division_less_than_divisor(food0, n as int);
            assert((n as int) * share <= food0);
            assert(cells0.take(0) =~= Seq::<Cell>::empty());
        }
        let mut i: usize = 0;
        while i < n
            invariant
                i <= n,
                n == cells0.len(),
                self.cells@.len() == n,
                self.food_sources@ == old(self).food_sources@,
                share == environment.food_per_cell@ as int,
                share >= 0,
                (n as int) * share <= food0,
                forall|j: int|
                    0 <= j < i as int ==> spec_is_stepped(
                        cells0[j],
                        share,
                        #[trigger] self.cells@[j],
                    ),
                forall|j: int| i as int <= j < n ==> self.cells@[j] == cells0[j],
                spec_total_eaten(cells0.take(i as int), share) <= (i as int) * share,
                self.food@ as int == food0 - spec_total_eaten(cells0.take(i as int), share),
                new_cells@.len() == spec_num_born(cells0.take(i as int), share),
                forall|j: int|
                    0 <= j < new_cells@.len() ==> exists|i2: int|
                        0 <= i2 < i as int && spec_is_child_of(
                            cells0[i2],
                            share,
                            #[trigger] new_cells@[j],
                        ),
                forall|a: int, b: int|
                    0 <= a < b < dead_cell_indexes@.len() ==> dead_cell_indexes@[a]
                        < dead_cell_indexes@[b],
                forall|k: int|
                    0 <= k < dead_cell_indexes@.len() ==> ((#[trigger] dead_cell_indexes@[k]) as int)
                        < i as int,
                dead_cell_indexes@.len() == spec_num_dead(cells0.take(i as int), share),
                forall|k: int|
                    0 <= k < dead_cell_indexes@.len() ==> cells0[(
                    #[trigger] dead_cell_indexes@[k]) as int].spec_health_after(share) == 0,
                forall|j: int|
                    0 <= j < i as int && (#[trigger] cells0[j]).spec_health_after(share) == 0
                        ==> spec_listed_before(
                        dead_cell_indexes@,
                        dead_cell_indexes@.len() as int,
                        j,
                    ),
            decreases n - i,
        {
            let (child, food_eaten) = self.cells[i].step(mutation_number_source, environment);

            proof {
                lemma_total_eaten_take_step(cells0, share, i as int);
                lemma_num_born_take_step(cells0, share, i as int);
                lemma_num_dead_take_step(cells0, share, i as int);
                assert(((i as int) + 1) * share == (i as int) * share + share) by (nonlinear_arith);
                lemma_mul_inequality(i as int + 1, n as int, share);
            }
            match child {
                Some(c) => {
                    new_cells.push(c);
                },
                None => {},
            }
            self.food = self.food.clipped_sub(food_eaten);
            proof {
                assert(spec_is_stepped(cells0[i as int], share, self.cells@[i as int]));
            }
            let ghost dead_pre: Seq<usize> = dead_cell_indexes@;
            let alive: bool = self.cells[i].is_alive();
            if !alive {
                dead_cell_indexes.push(i);
            }
            proof {
                assert forall|j: int|
                    0 <= j < i as int + 1 && (#[trigger] cells0[j]).spec_health_after(share) == 0
                        implies spec_listed_before(
                    dead_cell_indexes@,
                    dead_cell_indexes@.len() as int,
                    j,
                ) by {
                    if j < i as int {
                        let m = choose|m: int| 0 <= m < dead_pre.len() && dead_pre[m] as int == j;
                        assert(dead_cell_indexes@[m] as int == j);
                    } else {
                        if alive {
                            assert(self.cells@[i as int].state.health@ > 0);
                            assert(false);
                        } else {
                            assert(dead_cell_indexes@[dead_cell_indexes@.len() - 1] as int
                                == i as int);
                        }
                    }
                };
            }
            i = i + 1;
        }
        proof {
            assert(cells0.take(n as int) =~= cells0);
        }
    }

    fn remove_cells(&mut self, sorted_indexes: &Vec<usize>)
        requires
            forall|a: int, b: int|
                0 <= a < b < sorted_indexes@.len() ==> sorted_indexes@[a] < sorted_indexes@[b],
            forall|k: int|
                0 <= k < sorted_indexes@.len() ==> ((#[trigger] sorted_indexes@[k]) as int) < old(
                    self,
                ).cells@.len(),
            forall|i: int|
                0 <= i < old(self).cells@.len() && (#[trigger] old(self).cells@[i]).state.health@
                    == 0 ==> spec_listed_before(
                    sorted_indexes@,
                    sorted_indexes@.len() as int,
                    i,
                ),
            forall|k: int|
                0 <= k < sorted_indexes@.len() ==> old(self).cells@[(#[trigger] sorted_indexes@[
                    k]) as int].state.health@ == 0,
        ensures
            final(self).food == old(self).food,
            final(self).food_sources == old(self).food_sources,
            final(self).cells@.len() == old(self).cells@.len() - sorted_indexes@.len(),
            forall|j: int|
                0 <= j < final(self).cells@.len() ==> (#[trigger] final(self).cells@[j])
                    .state.health@ > 0,
            spec_members_from(final(self).cells@, old(self).cells@),
            forall|p: int|
                0 <= p < old(self).cells@.len() && !spec_listed_before(
                    sorted_indexes@,
                    sorted_indexes@.len() as int,
                    p,
                ) ==> final(self).cells@.contains(#[trigger] old(self).cells@[p]),
    {
        let ghost cells0: Seq<Cell> = self.cells@;
        let ghost listed: Seq<usize> = sorted_indexes@;
        let ghost len0: int = cells0.len() as int;
        let ghost total: int = listed.len() as int;
        let mut k: usize = sorted_indexes.len();
        proof {
            lemma_members_refl(cells0);
            assert forall|p: int|
                0 <= p < len0 && !spec_listed_before(listed, total, p) implies self.cells@.contains(
                #[trigger] cells0[p],
            ) by {
                cells0.lemma_index_contains(p);
            };
        }
        while k > 0
            invariant
                k as int <= total,
                total == listed.len(),
                listed == sorted_indexes@,
                len0 == cells0.len(),
                forall|a: int, b: int| 0 <= a < b < total ==> listed[a] < listed[b],
                forall|m: int| 0 <= m < total ==> ((#[trigger] listed[m]) as int) < len0,
                forall|m: int|
                    0 <= m < total ==> cells0[(#[trigger] listed[m]) as int].state.health@ == 0,
                forall|i: int|
                    0 <= i < len0 && (#[trigger] cells0[i]).state.health@ == 0
                        ==> spec_listed_before(listed, total, i),
                forall|p: int|
                    0 <= p < len0 && !spec_listed_before(listed, total, p) ==> self.cells@.contains(
                    #[trigger] cells0[p]),
                self.food == old(self).food,
                self.food_sources == old(self).food_sources,
                self.cells@.len() == len0 - (total - k as int),
                forall|m: int|
                    0 <= m < k as int ==> self.cells@[(#[trigger] listed[m]) as int] == cells0[
                        listed[m] as int],
                forall|j: int|
                    0 <= j < self.cells@.len() && !spec_listed_before(listed, k as int, j) ==> (
                    #[trigger] self.cells@[j]).state.health@ > 0,
                spec_members_from(self.cells@, cells0),
            decreases k,
        {
            k = k - 1;
            let idx: usize = sorted_indexes[k];
            proof {
                lemma_sorted_gap(listed, k as int, total - 1);
            }
            let ghost pre: Seq<Cell> = self.cells@;
            let ghost len_pre: int = pre.len() as int;
            let removed: Cell = self.cells.swap_remove(idx);
            proof {
                // positions below the removal point are untouched
                assert forall|m: int|
                    0 <= m < k as int implies self.cells@[(#[trigger] listed[m]) as int] == cells0[
                    listed[m] as int] by {
                    assert(listed[m] < listed[k as int]);
                    assert(self.cells@[listed[m] as int] == pre[listed[m] as int]);
                };
                // everything that remains and is not still marked for
                // removal is alive
                assert forall|j: int|
                    0 <= j < self.cells@.len() && !spec_listed_before(listed, k as int, j) implies (
                    #[trigger] self.cells@[j]).state.health@ > 0 by {
                    if j == idx as int {
                        assert(self.cells@[j] == pre[len_pre - 1]);
                        if spec_listed_before(listed, k as int + 1, len_pre - 1) {
                            let m = choose|m: int|
                                0 <= m < k as int + 1 && listed[m] as int == len_pre - 1;
                            if m < k as int {
                                assert(listed[m] < listed[k as int]);
                            }
                            assert(false);
                        }
                        assert(pre[len_pre - 1].state.health@ > 0);
                    } else {
                        assert(self.cells@[j] == pre[j]);
                        if spec_listed_before(listed, k as int + 1, j) {
                            let m = choose|m: int| 0 <= m < k as int + 1 && listed[m] as int == j;
                            if m < k as int {
                                assert(spec_listed_before(listed, k as int, j));
                            }
                            assert(false);
                        }
                        assert(pre[j].state.health@ > 0);
                    }
                };
                // every remaining cell was already in the population
                lemma_members_swap_remove(pre, idx as int, cells0);
                assert(self.cells@ =~= pre.update(idx as int, pre.last()).drop_last());
                // every cell not marked for removal is still present: the
                // removed slot held a dead, marked cell, so it cannot have
                // been the last copy of an unmarked one
                assert forall|p: int|
                    0 <= p < len0 && !spec_listed_before(listed, total, p)
                        implies self.cells@.contains(#[trigger] cells0[p]) by {
                    assert(pre[idx as int] == cells0[listed[k as int] as int]);
                    assert(cells0[listed[k as int] as int].state.health@ == 0);
                    assert(cells0[p].state.health@ > 0);
                    let j0 = pre.lemma_contains_to_index(cells0[p]);
                    if j0 == idx as int {
                        assert(false);
                    } else if j0 == len_pre - 1 {
                        assert(self.cells@[idx as int] == pre[len_pre - 1]);
                        self.cells@.lemma_index_contains(idx as int);
                    } else {
                        assert(self.cells@[j0] == pre[j0]);
                        self.cells@.lemma_index_contains(j0);
                    }
                };
            }
        }
    }

    /// One tick of the whole world. Returns (cells born, cells died).
    pub fn step<M: MutationNumberSource>(&mut self, mutation_number_source: &mut M) -> (r: (
        usize,
        usize,
    ))
        ensures
            spec_sources_advanced(old(self).food_sources@, final(self).food_sources@),
            (old(self).cells@.len() == 0 ==> {
                &&& final(self).cells@ == old(self).cells@
                &&& final(self).food@ == spec_polled_food(
                    old(self).food@ as int,
                    old(self).food_sources@,
                )
                &&& r.0 == 0 && r.1 == 0
            }),
            (old(self).cells@.len() > 0 ==> ({
                let polled = spec_polled_food(old(self).food@ as int, old(self).food_sources@);
                let share = polled / old(self).cells@.len() as int;
                &&& spec_total_eaten(old(self).cells@, share) <= polled
                &&& final(self).food@ == polled - spec_total_eaten(old(self).cells@, share)
                &&& r.0 == spec_num_born(old(self).cells@, share)
                &&& r.1 == spec_num_dead(old(self).cells@, share)
                &&& final(self).cells@.len() == old(self).cells@.len() + r.0 - r.1
                &&& (forall|j: int|
                    0 <= j < final(self).cells@.len() ==> (#[trigger] final(self).cells@[j])
                        .state.health@ > 0)
                &&& (forall|j: int|
                    0 <= j < final(self).cells@.len() ==> exists|i: int|
                        0 <= i < old(self).cells@.len() && spec_came_from(
                            old(self).cells@[i],
                            share,
                            #[trigger] final(self).cells@[j],
                        ))
                &&& (forall|i: int|
                    0 <= i < old(self).cells@.len() && (#[trigger] old(self).cells@[i])
                        .spec_health_after(share) > 0 ==> exists|j: int|
                        0 <= j < final(self).cells@.len() && spec_is_stepped_survivor(
                            old(self).cells@[i],
                            share,
                            final(self).cells@[j],
                        ))
            })),
    {
        let ghost cells0: Seq<Cell> = self.cells@;

        self.step_food_sources();

        let n: usize = self.cells.len();
        if n == 0 {
            return (0, 0);
        }
        let environment = CellEnvironment { food_per_cell: self.food.divided_by(n) };
        let ghost share: int = environment.food_per_cell@ as int;

        let mut new_cells: Vec<Cell> = Vec::new();
        let mut dead_cell_indexes: Vec<usize> = Vec::new();
        self.step_cells(
            mutation_number_source,
            &environment,
            &mut new_cells,
            &mut dead_cell_indexes,
        );
        let ghost stepped: Seq<Cell> = self.cells@;
        let ghost children: Seq<Cell> = new_cells@;

        let num_added: usize = new_cells.len();
        self.cells.append(&mut new_cells);
        let ghost combined: Seq<Cell> = self.cells@;
        let num_removed: usize = dead_cell_indexes.len();

        proof {
            // the dead indexes list exactly the combined population's dead:
            // children are born at full health
            assert forall|i: int|
                0 <= i < combined.len() && (#[trigger] combined[i]).state.health@ == 0
                    implies spec_listed_before(
                dead_cell_indexes@,
                dead_cell_indexes@.len() as int,
                i,
            ) by {
                if i < n as int {
                    assert(combined[i] == stepped[i]);
                    assert(spec_is_stepped(cells0[i], share, stepped[i]));
                    assert(cells0[i].spec_health_after(share) == 0);
                } else {
                    assert(combined[i] == children[i - n as int]);
                    let i2 = choose|i2: int|
                        0 <= i2 < n as int && spec_is_child_of(
                            cells0[i2],
                            share,
                            children[i - n as int],
                        );
                    assert(combined[i].state.health@ == UNIT);
                    assert(false);
                }
            };
            assert forall|k: int|
                0 <= k < dead_cell_indexes@.len() implies combined[(
            #[trigger] dead_cell_indexes@[k]) as int].state.health@ == 0 by {
                let d: int = dead_cell_indexes@[k] as int;
                assert(combined[d] == stepped[d]);
                assert(spec_is_stepped(cells0[d], share, stepped[d]));
            };
        }

        self.remove_cells(&dead_cell_indexes);

        proof {
            // each remaining cell is a stepped survivor of, or a child born
            // of, a cell of the pre-tick population
            assert forall|j: int| 0 <= j < self.cells@.len() implies exists|i: int|
                0 <= i < cells0.len() && spec_came_from(
                    cells0[i],
                    share,
                    #[trigger] self.cells@[j],
                ) by {
                let i0 = combined.lemma_contains_to_index(self.cells@[j]);
                assert(self.cells@[j].state.health@ > 0);
                if i0 < n as int {
                    assert(combined[i0] == stepped[i0]);
                    assert(spec_is_stepped(cells0[i0], share, stepped[i0]));
                    assert(spec_came_from(cells0[i0], share, self.cells@[j]));
                } else {
                    assert(combined[i0] == children[i0 - n as int]);
                    let i2 = choose|i2: int|
                        0 <= i2 < n as int && spec_is_child_of(
                            cells0[i2],
                            share,
                            children[i0 - n as int],
                        );
                    assert(spec_came_from(cells0[i2], share, self.cells@[j]));
                }
            };
            assert forall|i: int|
                0 <= i < n as int && (#[trigger] cells0[i]).spec_health_after(share) > 0
                    implies exists|j: int|
                0 <= j < self.cells@.len() && spec_is_stepped_survivor(
                    cells0[i],
                    share,
                    self.cells@[j],
                ) by {
                if spec_listed_before(dead_cell_indexes@, dead_cell_indexes@.len() as int, i) {
                    let m = choose|m: int|
                        0 <= m < dead_cell_indexes@.len() && dead_cell_indexes@[m] as int == i;
                    assert(cells0[i].spec_health_after(share) == 0);
                    assert(false);
                }
                assert(combined[i] == stepped[i]);
                assert(self.cells@.contains(combined[i]));
                let j0 = self.cells@.lemma_contains_to_index(combined[i]);
                assert(spec_is_stepped(cells0[i], share, stepped[i]));
                assert(spec_is_stepped_survivor(cells0[i], share, self.cells@[j0]));
            };
        }

        (num_added, num_removed)
    }
}

/// `j` stands among the first `k` entries of `listed`.
spec fn spec_listed_before(listed: Seq<usize>, k: int, j: int) -> bool {
    exists|m: int| 0 <= m < k && listed[m] as int == j
}

proof fn lemma_sorted_gap(s: Seq<usize>, k1: int, k2: int)
    requires
        forall|a: int, b: int| 0 <= a < b < s.len() ==> s[a] < s[b],
        0 <= k1 <= k2 < s.len(),
    ensures
        s[k2] as int - s[k1] as int >= k2 - k1,
    decreases k2 - k1,
{
    if k1 < k2 {
        lemma_sorted_gap(s, k1, k2 - 1);
        assert(s[k2 - 1] < s[k2]);
    }
}

proof fn lemma_total_eaten_take_step(s: Seq<Cell>, share: int, i: int)
    requires
        0 <= i < s.len(),
    ensures
        spec_total_eaten(s.take(i + 1), share) == spec_total_eaten(s.take(i), share)
            + s[i].spec_food_eaten(share),
{
    assert(s.take(i + 1).drop_last() =~= s.take(i));
    assert(s.take(i + 1).last() == s[i]);
}

proof fn lemma_num_born_take_step(s: Seq<Cell>, share: int, i: int)
    requires
        0 <= i < s.len(),
    ensures
        spec_num_born(s.take(i + 1), share) == spec_num_born(s.take(i), share)
            + if s[i].spec_commits(share) {
            1int
        } else {
            0int
        },
{
    assert(s.take(i + 1).drop_last() =~= s.take(i));
    assert(s.take(i + 1).last() == s[i]);
}

proof fn lemma_num_dead_take_step(s: Seq<Cell>, share: int, i: int)
    requires
        0 <= i < s.len(),
    ensures
        spec_num_dead(s.take(i + 1), share) == spec_num_dead(s.take(i), share)
            + if s[i].spec_health_after(share) == 0 {
            1int
        } else {
            0int
        },
{
    assert(s.take(i + 1).drop_last() =~= s.take(i));
    assert(s.take(i + 1).last() == s[i]);
}

proof fn lemma_sum_health_take_step(s: Seq<Cell>, i: int)
    requires
        0 <= i < s.len(),
    ensures
        spec_sum_health(s.take(i + 1)) == spec_sum_health(s.take(i)) + s[i].state.health@,
{
    assert(s.take(i + 1).drop_last() =~= s.take(i));
    assert(s.take(i + 1).last() == s[i]);
}

proof fn lemma_sum_health_nonneg(s: Seq<Cell>)
    ensures
        spec_sum_health(s) >= 0,
    decreases s.len(),
{
    if s.len() > 0 {
        lemma_sum_health_nonneg(s.drop_last());
    }
}

proof fn lemma_sum_energy_take_step(s: Seq<Cell>, i: int)
    requires
        0 <= i < s.len(),
    ensures
        spec_sum_energy(s.take(i + 1)) == spec_sum_energy(s.take(i)) + s[i].state.energy@,
{
    assert(s.take(i + 1).drop_last() =~= s.take(i));
    assert(s.take(i + 1).last() == s[i]);
}

proof fn lemma_sum_energy_nonneg(s: Seq<Cell>)
    ensures
        spec_sum_energy(s) >= 0,
    decreases s.len(),
{
    if s.len() > 0 {
        lemma_sum_energy_nonneg(s.drop_last());
    }
}

impl Default for World {
    fn default() -> (r: Self)
        ensures
            r.cells@.len() == 0,
            r.food@ == 0,
            r.food_sources@.len() == 0,
    {
        World::new()
    }
}

/// The two parameters of one normal sampling distribution, handed to a
/// mutation source as (value, spread).
#[derive(Clone, Copy, Debug, PartialEq)]
pub struct NormalParams {
    pub mean: Amount,
    pub stdev: Amount,
}

impl NormalParams {
    pub fn new(mean: Amount, stdev: Amount) -> (r: NormalParams)
        ensures
            r.mean == mean,
            r.stdev == stdev,
    {
        NormalParams { mean, stdev }
    }
}

/// Builds the seed population: each cell's heritable params and initial
/// energy are drawn by the given source, each around its configured mean
/// with its configured spread; every cell shares `constants` and starts at
/// full health.
pub fn generate_cells<M: MutationNumberSource>(
    num_cells: usize,
    mutation_number_source: &mut M,
    initial_energies: NormalParams,
    eating_energies: NormalParams,
    healing_energies: NormalParams,
    child_threshold_energies: NormalParams,
    child_threshold_foods: NormalParams,
    constants: &Rc<CellConstants>,
) -> (cells: Vec<Cell>)
    ensures
        cells@.len() == num_cells,
        forall|i: int| 0 <= i < num_cells ==> (#[trigger] cells@[i]).constants == *constants,
        forall|i: int| 0 <= i < num_cells ==> (#[trigger] cells@[i]).state.health@ == UNIT,
{
    let mut cells: Vec<Cell> = Vec::new();
    let mut i: usize = 0;
    while i < num_cells
        invariant
            i <= num_cells,
            cells@.len() == i as int,
            forall|k: int| 0 <= k < i as int ==> (#[trigger] cells@[k]).constants == *constants,
            forall|k: int| 0 <= k < i as int ==> (#[trigger] cells@[k]).state.health@ == UNIT,
        decreases num_cells - i,
    {
        let child_threshold_energy = mutation_number_source.mutate(
            child_threshold_energies.mean,
            child_threshold_energies.stdev,
        );
        let child_threshold_food = mutation_number_source.mutate(
            child_threshold_foods.mean,
            child_threshold_foods.stdev,
        );
        let attempted_eating_energy = mutation_number_source.mutate(
            eating_energies.mean,
            eating_energies.stdev,
        );
        let attempted_healing_energy = mutation_number_source.mutate(
            healing_energies.mean,
            healing_energies.stdev,
        );
        let initial_energy = mutation_number_source.mutate(
            initial_energies.mean,
            initial_energies.stdev,
        );
        cells.push(
            Cell::new(
                constants,
                CellParams {
                    child_threshold_energy,
                    child_threshold_food,
                    attempted_eating_energy,
                    attempted_healing_energy,
                },
            ).with_energy(initial_energy),
        );
        i = i + 1;
    }
    cells
}

} // verus!
