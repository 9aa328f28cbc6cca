//! One tick of the simulation, and runs of ticks.
//!
//! A tick sweeps the rows from the one above the floor up to the top, so
//! that a grain that fell in this tick is not examined again in it. The
//! floor itself is never swept: nothing lies below it.

use vstd::prelude::*;
use crate::draws::{
    Choice, Draws, Plan, RowDraws, choice_at, identity_order, order_for, row_plan, shuffle,
};
use crate::grid::{Grid, HEIGHT, WIDTH, World, grains, is_grid};
use crate::rule::{lemma_settled_conserves_grains, settled};

verus! {

/// The grid after the rule was applied to the cells of row `y` in the given
/// order of columns, each with the choice drawn for its column.
pub open spec fn swept(g: Grid, y: int, order: Seq<usize>, choices: Seq<Choice>) -> Grid
    decreases order.len(),
{
    if order.len() == 0 {
        g
    } else {
        let x = order.last() as int;
        settled(swept(g, y, order.drop_last(), choices), x, y, choice_at(choices, x))
    }
}

/// The grid after the rows from the one above the floor up to row `y` were
/// swept, in that order.
pub open spec fn ticked_from(g: Grid, plan: Plan, y: int) -> Grid
    decreases HEIGHT - y,
{
    if y < 0 || y >= HEIGHT - 1 {
        g
    } else {
        swept(ticked_from(g, plan, y + 1), y, order_for(plan, y), row_plan(plan, y).choices)
    }
}

/// The grid after one tick with the given draws.
pub open spec fn ticked(g: Grid, plan: Plan) -> Grid {
    ticked_from(g, plan, 0)
}

/// The grid after one tick for each of the given plans, in their order.
pub open spec fn ran(g: Grid, plans: Seq<Plan>) -> Grid
    decreases plans.len(),
{
    if plans.len() == 0 {
        g
    } else {
        ticked(ran(g, plans.drop_last()), plans.last())
    }
}

/// The plans that a list of draws stands for.
pub open spec fn plans_of(ticks: Seq<Draws>) -> Seq<Plan> {
    Seq::new(ticks.len(), |i: int| ticks[i]@)
}

/// Sweeping a row neither creates nor destroys sand.
pub proof fn lemma_swept_conserves_grains(g: Grid, y: int, order: Seq<usize>, choices: Seq<Choice>)
    requires
        is_grid(g),
    ensures
        is_grid(swept(g, y, order, choices)),
        grains(swept(g, y, order, choices)) == grains(g),
    decreases order.len(),
{
    if order.len() > 0 {
        lemma_swept_conserves_grains(g, y, order.drop_last(), choices);
        let x = order.last() as int;
        lemma_settled_conserves_grains(
            swept(g, y, order.drop_last(), choices),
            x,
            y,
            choice_at(choices, x),
        );
    }
}

/// Sweeping the rows from the floor up to row `y` neither creates nor
/// destroys sand.
pub proof fn lemma_ticked_from_conserves_grains(g: Grid, plan: Plan, y: int)
    requires
        is_grid(g),
    ensures
        is_grid(ticked_from(g, plan, y)),
        grains(ticked_from(g, plan, y)) == grains(g),
    decreases HEIGHT - y,
{
    if 0 <= y < HEIGHT - 1 {
        lemma_ticked_from_conserves_grains(g, plan, y + 1);
        lemma_swept_conserves_grains(
            ticked_from(g, plan, y + 1),
            y,
            order_for(plan, y),
            row_plan(plan, y).choices,
        );
    }
}

/// Conservation of mass: a tick leaves the number of grains as it was,
/// whatever the grid holds and whatever was drawn.
pub proof fn lemma_tick_conserves_grains(g: Grid, plan: Plan)
    requires
        is_grid(g),
    ensures
        is_grid(ticked(g, plan)),
        grains(ticked(g, plan)) == grains(g),
{
    lemma_ticked_from_conserves_grains(g, plan, 0);
}

/// Conservation of mass: any number of ticks leaves the number of grains as
/// it was.
pub proof fn lemma_run_conserves_grains(g: Grid, plans: Seq<Plan>)
    requires
        is_grid(g),
    ensures
        is_grid(ran(g, plans)),
        grains(ran(g, plans)) == grains(g),
    decreases plans.len(),
{
    if plans.len() > 0 {
        lemma_run_conserves_grains(g, plans.drop_last());
        lemma_tick_conserves_grains(ran(g, plans.drop_last()), plans.last());
    }
}

impl World {
    /// Sweeps row `y`, visiting its columns in the given order and giving
    /// each grain the choice drawn for its column.
    fn sweep(&mut self, y: usize, order: &[usize; WIDTH], row: &RowDraws)
        ensures
            final(self)@ == swept(old(self)@, y as int, order@, row@.choices),
    {
        let mut k: usize = 0;
        while k < WIDTH
            invariant
                k <= WIDTH,
                self@ == swept(old(self)@, y as int, order@.take(k as int), row@.choices),
            decreases WIDTH - k,
        {
            let x: usize = order[k];
            self.settle(x, y, row.choice(x));
            k = k + 1;
            assert(order@.take(k as int).drop_last() =~= order@.take(k - 1));
        }
        assert(order@.take(WIDTH as int) =~= order@);
    }

    /// Advances the simulation by one tick. Rows are swept from the one
    /// above the floor up to the top; the columns of each row are visited in
    /// the order that the row's shuffle gives, and each grain moves by the
    /// rule with the choice drawn for its column. With no draws this is the
    /// deterministic policy.
    pub fn step(&mut self, draws: &Draws)
        ensures
            final(self)@ == ticked(old(self)@, draws@),
            grains(final(self)@) == grains(old(self)@),
    {
        proof {
            self.lemma_view_is_grid();
            lemma_tick_conserves_grains(self@, draws@);
        }
        let mut order = [0usize; WIDTH];
        let mut i: usize = 0;
        while i < WIDTH
            invariant
                i <= WIDTH,
                forall|x: int| 0 <= x < i ==> order@[x] == x,
            decreases WIDTH - i,
        {
            order[i] = i;
            i = i + 1;
        }
        assert(order@ =~= identity_order());
        let nothing = RowDraws { picks: Vec::new(), choices: Vec::new() };
        let mut y: usize = HEIGHT - 1;
        while y > 0
            invariant
                y <= HEIGHT - 1,
                self@ == ticked_from(old(self)@, draws@, y as int),
                order@ == order_for(draws@, y as int),
                nothing@.picks == Seq::<usize>::empty(),
                nothing@.choices == Seq::<Choice>::empty(),
            decreases y,
        {
            y = y - 1;
            let row = match draws.row(y) {
                Some(drawn) => drawn,
                None => &nothing,
            };
            assert(row@ == row_plan(draws@, y as int));
            shuffle(&mut order, &row.picks);
            self.sweep(y, &order, row);
        }
    }

    /// Advances the simulation by one tick for each of the given draws, in
    /// their order.
    pub fn run(&mut self, ticks: &Vec<Draws>)
        ensures
            final(self)@ == ran(old(self)@, plans_of(ticks@)),
            grains(final(self)@) == grains(old(self)@),
    {
        proof {
            self.lemma_view_is_grid();
            lemma_run_conserves_grains(self@, plans_of(ticks@));
        }
        let mut n: usize = 0;
        while n < ticks.len()
            invariant
                n <= ticks.len(),
                self@ == ran(old(self)@, plans_of(ticks@).take(n as int)),
            decreases ticks.len() - n,
        {
            self.step(&ticks[n]);
            n = n + 1;
            assert(plans_of(ticks@).take(n as int).drop_last() =~= plans_of(ticks@).take(n - 1));
        }
        assert(plans_of(ticks@).take(ticks.len() as int) =~= plans_of(ticks@));
    }
}

} // verus!
