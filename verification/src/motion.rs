//! How sand moves through ticks: what rests stays, a lone grain falls one
//! row per tick, and no sand rises or falls more than one row in a tick.

use vstd::prelude::*;
use crate::cell::Cell;
use crate::draws::{
    Choice, Plan, choice_at, lemma_order_is_permutation, order_for, row_plan, visits,
};
use crate::grid::{
    Grid, HEIGHT, WIDTH, empty_grid, grains, grains_in_row, in_bounds, is_grid,
    lemma_grains_with_cell, weight, with_cell,
};
use crate::rule::{destination, is_swept, lemma_destination_is_free, settled};
use crate::tick::{
    lemma_swept_conserves_grains, lemma_ticked_from_conserves_grains, ran, swept, ticked,
    ticked_from,
};

verus! {

/// The grid whose only grain lies at `(x, y)`.
pub open spec fn lone_grain(x: int, y: int) -> Grid {
    with_cell(empty_grid(), x, y, Cell::Sand)
}

/// Every cell above the floor is empty.
pub open spec fn rests_on_floor(g: Grid) -> bool {
    forall|x: int, y: int| is_swept(x, y) ==> (#[trigger] g[y][x]) == Cell::Empty
}

/// Sweeping a row in which no cell holds sand changes nothing.
pub proof fn lemma_swept_empty_row(g: Grid, y: int, order: Seq<usize>, choices: Seq<Choice>)
    requires
        forall|x: int| 0 <= x < WIDTH ==> (#[trigger] g[y][x]) == Cell::Empty,
    ensures
        swept(g, y, order, choices) == g,
    decreases order.len(),
{
    if order.len() > 0 {
        lemma_swept_empty_row(g, y, order.drop_last(), choices);
    }
}

/// Sweeping rows in which no cell holds sand changes nothing.
pub proof fn lemma_ticked_from_empty_rows(g: Grid, plan: Plan, y: int)
    requires
        forall|x: int, r: int| 0 <= x < WIDTH && y <= r < HEIGHT - 1 ==> (#[trigger] g[r][x])
            == Cell::Empty,
    ensures
        ticked_from(g, plan, y) == g,
    decreases HEIGHT - y,
{
    if 0 <= y < HEIGHT - 1 {
        lemma_ticked_from_empty_rows(g, plan, y + 1);
        lemma_swept_empty_row(g, y, order_for(plan, y), row_plan(plan, y).choices);
    }
}

/// Settling: a grid whose sand all lies on the floor is a fixed point of
/// the tick, whatever was drawn.
pub proof fn lemma_sand_on_floor_is_stable(g: Grid, plan: Plan)
    requires
        rests_on_floor(g),
    ensures
        ticked(g, plan) == g,
{
    lemma_ticked_from_empty_rows(g, plan, 0);
}

/// A grid whose sand all lies on the floor stays as it is through any
/// number of ticks.
pub proof fn lemma_sand_on_floor_stays(g: Grid, plans: Seq<Plan>)
    requires
        rests_on_floor(g),
    ensures
        ran(g, plans) == g,
    decreases plans.len(),
{
    if plans.len() > 0 {
        lemma_sand_on_floor_stays(g, plans.drop_last());
        lemma_sand_on_floor_is_stable(g, plans.last());
    }
}

/// Sweeping the row of a lone grain moves it one row down when its column
/// is visited, and does nothing before and after that.
pub proof fn lemma_swept_lone_grain(x: int, y: int, order: Seq<usize>, choices: Seq<Choice>)
    requires
        is_swept(x, y),
    ensures
        swept(lone_grain(x, y), y, order, choices) == if visits(order, x) {
            lone_grain(x, y + 1)
        } else {
            lone_grain(x, y)
        },
    decreases order.len(),
{
    if order.len() > 0 {
        let front = order.drop_last();
        let last = order.last() as int;
        let choice = choice_at(choices, last);
        lemma_swept_lone_grain(x, y, front, choices);
        if visits(front, x) {
            let k = choose|k: int| 0 <= k < front.len() && #[trigger] front[k] == x;
            assert(order[k] == x);
            assert(settled(lone_grain(x, y + 1), last, y, choice) == lone_grain(x, y + 1));
        } else if last == x {
            assert(order[order.len() - 1] == x);
            assert(settled(lone_grain(x, y), x, y, choice) =~~= lone_grain(x, y + 1));
        } else {
            assert(!visits(order, x)) by {
                if visits(order, x) {
                    let k = choose|k: int| 0 <= k < order.len() && #[trigger] order[k] == x;
                    assert(front[k] == x);
                }
            }
            assert(settled(lone_grain(x, y), last, y, choice) == lone_grain(x, y));
        }
    }
}

/// Single-column fall: a tick moves a lone grain above the floor one row
/// down in its column, whatever was drawn.
pub proof fn lemma_lone_grain_falls(x: int, y: int, plan: Plan)
    requires
        is_swept(x, y),
    ensures
        ticked(lone_grain(x, y), plan) == lone_grain(x, y + 1),
{
    let g = lone_grain(x, y);
    lemma_ticked_from_empty_rows(g, plan, y + 1);
    lemma_order_is_permutation(plan, y);
    assert(visits(order_for(plan, y), x));
    lemma_swept_lone_grain(x, y, order_for(plan, y), row_plan(plan, y).choices);
    assert(ticked_from(g, plan, y) == lone_grain(x, y + 1));
    lemma_ticked_above(lone_grain(x, y + 1), plan, g, y);
}

/// Once the rows from the floor up to row `y` are swept and all rows above
/// `y` are empty, the rest of the tick changes nothing.
proof fn lemma_ticked_above(after: Grid, plan: Plan, g: Grid, y: int)
    requires
        0 <= y < HEIGHT - 1,
        ticked_from(g, plan, y) == after,
        forall|x: int, r: int| 0 <= x < WIDTH && 0 <= r < y ==> (#[trigger] after[r][x])
            == Cell::Empty,
    ensures
        ticked(g, plan) == after,
{
    lemma_ticked_above_from(after, plan, g, y, 0);
}

/// The same, for the part of the tick that sweeps the rows from `y` up to
/// row `top`.
proof fn lemma_ticked_above_from(after: Grid, plan: Plan, g: Grid, y: int, top: int)
    requires
        0 <= top <= y < HEIGHT - 1,
        ticked_from(g, plan, y) == after,
        forall|x: int, r: int| 0 <= x < WIDTH && 0 <= r < y ==> (#[trigger] after[r][x])
            == Cell::Empty,
    ensures
        ticked_from(g, plan, top) == after,
    decreases y - top,
{
    if top < y {
        lemma_ticked_above_from(after, plan, g, y, top + 1);
        lemma_swept_empty_row(after, top, order_for(plan, top), row_plan(plan, top).choices);
    }
}

/// The row that a grain dropped in row `y` has reached after `n` ticks.
pub open spec fn fallen(y: int, n: nat) -> int {
    if y + n < HEIGHT - 1 {
        y + n
    } else {
        HEIGHT - 1
    }
}

/// Single-column fall: a lone grain falls one row per tick in its column
/// until it lies on the floor, where it stays. From the top row it reaches
/// the floor after exactly `HEIGHT - 1` ticks.
pub proof fn lemma_lone_grain_run(x: int, y: int, plans: Seq<Plan>)
    requires
        in_bounds(x, y),
    ensures
        ran(lone_grain(x, y), plans) == lone_grain(x, fallen(y, plans.len())),
    decreases plans.len(),
{
    if plans.len() > 0 {
        let before = fallen(y, (plans.len() - 1) as nat);
        lemma_lone_grain_run(x, y, plans.drop_last());
        if before < HEIGHT - 1 {
            lemma_lone_grain_falls(x, before, plans.last());
        } else {
            lemma_sand_on_floor_is_stable(lone_grain(x, before), plans.last());
        }
    }
}


/// No grain of `g` has anywhere to go with the choice that the plan holds
/// for its cell.
pub open spec fn rests_under(g: Grid, plan: Plan) -> bool {
    forall|x: int, y: int|
        is_swept(x, y) ==> #[trigger] destination(
            g,
            x,
            y,
            choice_at(row_plan(plan, y).choices, x),
        ) is None
}

/// Sweeping a row of which no grain has anywhere to go changes nothing.
proof fn lemma_swept_at_rest(g: Grid, y: int, order: Seq<usize>, choices: Seq<Choice>)
    requires
        forall|x: int| is_swept(x, y) ==> #[trigger] destination(g, x, y, choice_at(choices, x))
            is None,
    ensures
        swept(g, y, order, choices) == g,
    decreases order.len(),
{
    if order.len() > 0 {
        lemma_swept_at_rest(g, y, order.drop_last(), choices);
        let x = order.last() as int;
        assert(!is_swept(x, y) ==> destination(g, x, y, choice_at(choices, x)) is None);
    }
}

/// Sweeping rows of which no grain has anywhere to go changes nothing.
proof fn lemma_ticked_from_at_rest(g: Grid, plan: Plan, y: int)
    requires
        rests_under(g, plan),
    ensures
        ticked_from(g, plan, y) == g,
    decreases HEIGHT - y,
{
    if 0 <= y < HEIGHT - 1 {
        lemma_ticked_from_at_rest(g, plan, y + 1);
        lemma_swept_at_rest(g, y, order_for(plan, y), row_plan(plan, y).choices);
    }
}

/// Settling: a grid in which no grain has anywhere to go, with the choices
/// that were drawn, is a fixed point of the tick.
pub proof fn lemma_grid_at_rest_is_stable(g: Grid, plan: Plan)
    requires
        rests_under(g, plan),
    ensures
        ticked(g, plan) == g,
{
    lemma_ticked_from_at_rest(g, plan, 0);
}

/// Number of grains in the rows above row `r`.
pub open spec fn grains_above(g: Grid, r: int) -> nat {
    grains(g.take(r))
}

/// The grains above row `r + 1` are those above row `r` and those of row
/// `r`.
pub proof fn lemma_grains_above_next(g: Grid, r: int)
    requires
        0 <= r < g.len(),
    ensures
        grains_above(g, r + 1) == grains_above(g, r) + grains_in_row(g[r]),
{
    assert(g.take(r + 1).drop_last() =~= g.take(r));
}

/// Replacing a cell changes the count above row `r` only if the cell lies
/// above row `r`, and then by the difference of the two cells' weights.
proof fn lemma_grains_above_with_cell(g: Grid, x: int, y: int, c: Cell, r: int)
    requires
        0 <= y < g.len(),
        0 <= x < g[y].len(),
        0 <= r <= g.len(),
    ensures
        y < r ==> grains_above(with_cell(g, x, y, c), r) + weight(g[y][x]) == grains_above(g, r)
            + weight(c),
        y >= r ==> grains_above(with_cell(g, x, y, c), r) == grains_above(g, r),
{
    if y < r {
        assert(with_cell(g, x, y, c).take(r) =~= with_cell(g.take(r), x, y, c));
        lemma_grains_with_cell(g.take(r), x, y, c);
    } else {
        assert(with_cell(g, x, y, c).take(r) =~= g.take(r));
    }
}

/// The rule applied to the cell at `(x, y)` adds no grain to the rows above
/// any row `r`, and takes one away only above row `y + 1`.
proof fn lemma_settled_sinks(g: Grid, x: int, y: int, choice: Choice, r: int)
    requires
        is_grid(g),
        0 <= r <= HEIGHT,
    ensures
        grains_above(settled(g, x, y, choice), r) <= grains_above(g, r),
        r != y + 1 ==> grains_above(settled(g, x, y, choice), r) == grains_above(g, r),
{
    lemma_destination_is_free(g, x, y, choice);
    match destination(g, x, y, choice) {
        Some((nx, ny)) => {
            let mid = with_cell(g, nx, ny, Cell::Sand);
            lemma_grains_above_with_cell(g, nx, ny, Cell::Sand, r);
            assert(mid[y][x] == Cell::Sand);
            lemma_grains_above_with_cell(mid, x, y, Cell::Empty, r);
        },
        None => {},
    }
}

/// Sweeping row `y` adds no grain to the rows above any row `r`, and takes
/// grains away only above row `y + 1`.
proof fn lemma_swept_sinks(g: Grid, y: int, order: Seq<usize>, choices: Seq<Choice>, r: int)
    requires
        is_grid(g),
        0 <= r <= HEIGHT,
    ensures
        grains_above(swept(g, y, order, choices), r) <= grains_above(g, r),
        r != y + 1 ==> grains_above(swept(g, y, order, choices), r) == grains_above(g, r),
    decreases order.len(),
{
    if order.len() > 0 {
        let x = order.last() as int;
        lemma_swept_sinks(g, y, order.drop_last(), choices, r);
        lemma_swept_conserves_grains(g, y, order.drop_last(), choices);
        lemma_settled_sinks(
            swept(g, y, order.drop_last(), choices),
            x,
            y,
            choice_at(choices, x),
            r,
        );
    }
}

/// After the rows from the floor up to row `y` were swept, the rows above
/// any row `r` hold no more grains than before, exactly as many if none of
/// them was swept, and no fewer than the rows above row `r - 1` held.
proof fn lemma_ticked_from_sinks(g: Grid, plan: Plan, y: int, r: int)
    requires
        is_grid(g),
        0 <= y,
        0 <= r <= HEIGHT,
    ensures
        grains_above(ticked_from(g, plan, y), r) <= grains_above(g, r),
        r <= y ==> grains_above(ticked_from(g, plan, y), r) == grains_above(g, r),
        1 <= r ==> grains_above(g, r - 1) <= grains_above(ticked_from(g, plan, y), r),
    decreases HEIGHT - y,
{
    if y < HEIGHT - 1 {
        let below = ticked_from(g, plan, y + 1);
        let order = order_for(plan, y);
        let choices = row_plan(plan, y).choices;
        lemma_ticked_from_conserves_grains(g, plan, y + 1);
        lemma_ticked_from_sinks(g, plan, y + 1, r);
        lemma_swept_sinks(below, y, order, choices, r);
        if r == y + 1 {
            lemma_ticked_from_sinks(g, plan, y + 1, y);
            lemma_swept_sinks(below, y, order, choices, y);
            lemma_swept_conserves_grains(below, y, order, choices);
            lemma_grains_above_next(swept(below, y, order, choices), y);
        }
    } else if 1 <= r {
        lemma_grains_above_next(g, r - 1);
    }
}

/// One row per tick: after a tick the rows above any row hold no more
/// grains than before, so no sand rises, and no fewer than the rows above
/// the row before it held, so no sand falls through more than one row.
pub proof fn lemma_tick_sinks_one_row(g: Grid, plan: Plan, r: int)
    requires
        is_grid(g),
        0 <= r <= HEIGHT,
    ensures
        grains_above(ticked(g, plan), r) <= grains_above(g, r),
        1 <= r ==> grains_above(g, r - 1) <= grains_above(ticked(g, plan), r),
{
    lemma_ticked_from_sinks(g, plan, 0, r);
}

} // verus!
