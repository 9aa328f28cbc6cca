//! The transition rule for one grain of sand.
//!
//! A grain falls straight down if the cell below it is empty. Otherwise it
//! tries the two cells diagonally below it, in the order its choice gives.
//! A grain that is blocked on all three may roll into an empty cell beside
//! it, if its choice says so. Else it stays where it is.

use vstd::prelude::*;
use crate::cell::Cell;
use crate::draws::Choice;
use crate::grid::{
    Grid, HEIGHT, WIDTH, World, grains, in_bounds, is_grid, lemma_grains_with_cell, with_cell,
};

verus! {

/// `(x, y)` is a cell of the grid and holds nothing.
pub open spec fn is_free(g: Grid, x: int, y: int) -> bool {
    in_bounds(x, y) && g[y][x] == Cell::Empty
}

/// The grid after the grain at `(x, y)` went to `(nx, ny)`.
pub open spec fn moved(g: Grid, x: int, y: int, nx: int, ny: int) -> Grid {
    with_cell(with_cell(g, nx, ny, Cell::Sand), x, y, Cell::Empty)
}

/// `(x, y)` is a cell that a tick examines: any cell above the floor.
pub open spec fn is_swept(x: int, y: int) -> bool {
    0 <= x < WIDTH && 0 <= y < HEIGHT - 1
}

/// Where the grain at `(x, y)` goes: the first free cell among the one
/// below, the two diagonals in the chosen order and, if the choice allows
/// rolling, the two cells beside it in the chosen order. `None` if there is
/// no grain at `(x, y)`, if the cell is not swept, or if none of them is
/// free.
pub open spec fn destination(g: Grid, x: int, y: int, choice: Choice) -> Option<(int, int)> {
    let near = choice.diagonal.beside(x);
    let far = choice.diagonal.spec_other().beside(x);
    if !is_swept(x, y) || g[y][x] != Cell::Sand {
        None
    } else if is_free(g, x, y + 1) {
        Some((x, y + 1))
    } else if is_free(g, near, y + 1) {
        Some((near, y + 1))
    } else if is_free(g, far, y + 1) {
        Some((far, y + 1))
    } else {
        match choice.roll {
            None => None,
            Some(side) => {
                if is_free(g, side.beside(x), y) {
                    Some((side.beside(x), y))
                } else if is_free(g, side.spec_other().beside(x), y) {
                    Some((side.spec_other().beside(x), y))
                } else {
                    None
                }
            },
        }
    }
}

/// The grid after the rule was applied to the cell at `(x, y)`.
pub open spec fn settled(g: Grid, x: int, y: int, choice: Choice) -> Grid {
    match destination(g, x, y, choice) {
        Some((nx, ny)) => moved(g, x, y, nx, ny),
        None => g,
    }
}

/// A destination is a free cell of the grid, other than the grain's own, in
/// the grain's row or the row below it, at most one column away.
pub proof fn lemma_destination_is_free(g: Grid, x: int, y: int, choice: Choice)
    ensures
        destination(g, x, y, choice) matches Some((nx, ny)) ==> {
            &&& is_swept(x, y)
            &&& g[y][x] == Cell::Sand
            &&& is_free(g, nx, ny)
            &&& y <= ny <= y + 1
            &&& x - 1 <= nx <= x + 1
        },
{
}

/// Moving a grain into a free cell neither creates nor destroys sand.
pub proof fn lemma_moved_conserves_grains(g: Grid, x: int, y: int, nx: int, ny: int)
    requires
        is_grid(g),
        in_bounds(x, y),
        g[y][x] == Cell::Sand,
        is_free(g, nx, ny),
    ensures
        is_grid(moved(g, x, y, nx, ny)),
        grains(moved(g, x, y, nx, ny)) == grains(g),
{
    let mid = with_cell(g, nx, ny, Cell::Sand);
    lemma_grains_with_cell(g, nx, ny, Cell::Sand);
    assert(is_grid(mid));
    assert(mid[y][x] == Cell::Sand);
    lemma_grains_with_cell(mid, x, y, Cell::Empty);
}

/// The rule applied to one cell neither creates nor destroys sand.
pub proof fn lemma_settled_conserves_grains(g: Grid, x: int, y: int, choice: Choice)
    requires
        is_grid(g),
    ensures
        is_grid(settled(g, x, y, choice)),
        grains(settled(g, x, y, choice)) == grains(g),
{
    lemma_destination_is_free(g, x, y, choice);
    match destination(g, x, y, choice) {
        Some((nx, ny)) => {
            lemma_moved_conserves_grains(g, x, y, nx, ny);
        },
        None => {},
    }
}

impl World {
    /// Moves the grain at `(x, y)` to column `to` of row `ny` if there is
    /// such a column and the cell is empty, and says whether it did.
    fn move_if_free(&mut self, x: usize, y: usize, to: Option<usize>, ny: usize) -> (went: bool)
        requires
            in_bounds(x as int, y as int),
            ny < HEIGHT,
            to is Some ==> to->0 < WIDTH,
            old(self)@[y as int][x as int] == Cell::Sand,
        ensures
            went <==> to is Some && is_free(old(self)@, to->0 as int, ny as int),
            went ==> final(self)@ == moved(old(self)@, x as int, y as int, to->0 as int, ny as int),
            !went ==> final(self)@ == old(self)@,
    {
        match to {
            None => false,
            Some(nx) => {
                if self.grid[ny][nx] == Cell::Empty {
                    self.grid[ny][nx] = Cell::Sand;
                    self.grid[y][x] = Cell::Empty;
                    assert(self@ =~~= moved(old(self)@, x as int, y as int, nx as int, ny as int));
                    true
                } else {
                    false
                }
            },
        }
    }

    /// Applies the rule to the cell at `(x, y)`. Nothing happens if the cell
    /// holds no grain, lies on the floor or lies outside the grid.
    pub fn settle(&mut self, x: usize, y: usize, choice: Choice)
        ensures
            final(self)@ == settled(old(self)@, x as int, y as int, choice),
            grains(final(self)@) == grains(old(self)@),
    {
        proof {
            self.lemma_view_is_grid();
            lemma_settled_conserves_grains(self@, x as int, y as int, choice);
        }
        if x >= WIDTH || y >= HEIGHT - 1 {
            return ;
        }
        if self.grid[y][x] != Cell::Sand {
            return ;
        }
        if self.move_if_free(x, y, Some(x), y + 1) {
            return ;
        }
        if self.move_if_free(x, y, choice.diagonal.neighbor(x), y + 1) {
            return ;
        }
        if self.move_if_free(x, y, choice.diagonal.other().neighbor(x), y + 1) {
            return ;
        }
        match choice.roll {
            None => {},
            Some(side) => {
                if self.move_if_free(x, y, side.neighbor(x), y) {
                    return ;
                }
                let _ = self.move_if_free(x, y, side.other().neighbor(x), y);
            },
        }
    }
}

} // verus!
