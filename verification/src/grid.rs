//! The fixed-size grid of cells, its mathematical model, and the count of
//! sand grains on which conservation of mass is stated.

use vstd::prelude::*;
use crate::cell::Cell;

verus! {

/// Number of columns.
pub const WIDTH: usize = 200;

/// Number of rows. Row 0 is the top, row `HEIGHT - 1` the floor.
pub const HEIGHT: usize = 150;

/// The model of a grid: a sequence of rows, each a sequence of cells.
pub type Grid = Seq<Seq<Cell>>;

/// A model has the dimensions of the world: `HEIGHT` rows of `WIDTH` cells.
pub open spec fn is_grid(g: Grid) -> bool {
    &&& g.len() == HEIGHT
    &&& forall|y: int| 0 <= y < HEIGHT ==> (#[trigger] g[y]).len() == WIDTH
}

/// `(x, y)` names a cell of the world.
pub open spec fn in_bounds(x: int, y: int) -> bool {
    0 <= x < WIDTH && 0 <= y < HEIGHT
}

/// The grid `g` with the cell at `(x, y)` replaced by `c`.
pub open spec fn with_cell(g: Grid, x: int, y: int, c: Cell) -> Grid {
    g.update(y, g[y].update(x, c))
}

/// The grid in which every cell is empty.
pub open spec fn empty_grid() -> Grid {
    Seq::new(HEIGHT as nat, |y: int| Seq::new(WIDTH as nat, |x: int| Cell::Empty))
}

/// 1 for a sand cell, 0 for an empty one.
pub open spec fn weight(c: Cell) -> nat {
    if c == Cell::Sand {
        1
    } else {
        0
    }
}

/// Number of sand cells in one row.
pub open spec fn grains_in_row(row: Seq<Cell>) -> nat
    decreases row.len(),
{
    if row.len() == 0 {
        0
    } else {
        grains_in_row(row.drop_last()) + weight(row.last())
    }
}

/// Number of sand cells in the whole grid.
pub open spec fn grains(g: Grid) -> nat
    decreases g.len(),
{
    if g.len() == 0 {
        0
    } else {
        grains(g.drop_last()) + grains_in_row(g.last())
    }
}

/// Replacing one cell of a row changes its count by the difference of the
/// two cells' weights.
pub proof fn lemma_grains_in_row_update(row: Seq<Cell>, x: int, c: Cell)
    requires
        0 <= x < row.len(),
    ensures
        grains_in_row(row.update(x, c)) + weight(row[x]) == grains_in_row(row) + weight(c),
    decreases row.len(),
{
    let after = row.update(x, c);
    if x == row.len() - 1 {
        assert(after.drop_last() =~= row.drop_last());
    } else {
        assert(after.drop_last() =~= row.drop_last().update(x, c));
        lemma_grains_in_row_update(row.drop_last(), x, c);
    }
}

/// Replacing one row of a grid changes its count by the difference of the
/// two rows' counts.
pub proof fn lemma_grains_update(g: Grid, y: int, row: Seq<Cell>)
    requires
        0 <= y < g.len(),
    ensures
        grains(g.update(y, row)) + grains_in_row(g[y]) == grains(g) + grains_in_row(row),
    decreases g.len(),
{
    let after = g.update(y, row);
    if y == g.len() - 1 {
        assert(after.drop_last() =~= g.drop_last());
    } else {
        assert(after.drop_last() =~= g.drop_last().update(y, row));
        lemma_grains_update(g.drop_last(), y, row);
    }
}

/// Replacing one cell of a grid changes its count by the difference of the
/// two cells' weights.
pub proof fn lemma_grains_with_cell(g: Grid, x: int, y: int, c: Cell)
    requires
        0 <= y < g.len(),
        0 <= x < g[y].len(),
    ensures
        grains(with_cell(g, x, y, c)) + weight(g[y][x]) == grains(g) + weight(c),
{
    lemma_grains_in_row_update(g[y], x, c);
    lemma_grains_update(g, y, g[y].update(x, c));
}

/// The world: a dense grid of cells, owned by the simulation.
pub struct World {
    pub grid: [[Cell; WIDTH]; HEIGHT],
}

impl View for World {
    type V = Grid;

    open spec fn view(&self) -> Grid {
        Seq::new(HEIGHT as nat, |y: int| self.grid[y]@)
    }
}

impl World {
    /// The view of a world always has the world's dimensions.
    pub proof fn lemma_view_is_grid(&self)
        ensures
            is_grid(self@),
    {
    }

    /// A world in which every cell is empty.
    pub fn new() -> (w: Self)
        ensures
            w@ == empty_grid(),
    {
        let w = Self { grid: [[Cell::Empty; WIDTH]; HEIGHT] };
        assert(w@ =~~= empty_grid());
        w
    }

    /// The cell at `(x, y)`, or `None` outside the grid.
    pub fn cell(&self, x: usize, y: usize) -> (c: Option<Cell>)
        ensures
            c == if in_bounds(x as int, y as int) {
                Some(self@[y as int][x as int])
            } else {
                None
            },
    {
        if x < WIDTH && y < HEIGHT {
            Some(self.grid[y][x])
        } else {
            None
        }
    }

    /// The number of sand cells.
    pub fn sand_count(&self) -> (n: usize)
        ensures
            n == grains(self@),
    {
        let mut n: usize = 0;
        let mut y: usize = 0;
        while y < HEIGHT
            invariant
                y <= HEIGHT,
                n == grains(self@.take(y as int)),
                n <= y * WIDTH,
            decreases HEIGHT - y,
        {
            let ghost row = self@[y as int];
            let ghost above = n;
            let mut x: usize = 0;
            while x < WIDTH
                invariant
                    x <= WIDTH,
                    y < HEIGHT,
                    row == self@[y as int],
                    n == above + grains_in_row(row.take(x as int)),
                    above <= y * WIDTH,
                    n <= above + x,
                decreases WIDTH - x,
            {
                if self.grid[y][x] == Cell::Sand {
                    n = n + 1;
                }
                x = x + 1;
                assert(row.take(x as int).drop_last() =~= row.take(x - 1));
            }
            y = y + 1;
            assert(row.take(WIDTH as int) =~= row);
            assert(self@.take(y as int).drop_last() =~= self@.take(y - 1));
        }
        assert(self@.take(HEIGHT as int) =~= self@);
        n
    }
}

} // verus!
