//! What the host of the simulation needs besides ticks and strokes: the
//! scale between cells and device pixels, the tool that a pointer's buttons
//! select, and the squares to draw for a frame.

use vstd::prelude::*;
use crate::cell::{Cell, Tool};
use crate::grid::{Grid, HEIGHT, WIDTH, World, grains, grains_in_row};

verus! {

/// Side of the square, in device pixels, as which one cell is drawn.
pub const CELL_SIZE: usize = 4;

/// Number of ticks by which the simulation advances for each frame drawn.
pub const TICKS_PER_FRAME: usize = 2;

/// Chance, in percent, with which the host lets a grain that can neither
/// fall nor slide try to roll sideways. A tuning value, not a law of the
/// simulation: the engine rolls a grain whenever its choice says so.
pub const ROLL_PERCENT: u32 = 5;

impl Tool {
    /// The tool that a pointer selects: the eraser if the secondary button
    /// is the only one held (`buttons` is 2) or the one that changed
    /// (`button` is 2), else sand.
    pub fn for_buttons(buttons: u16, button: i16) -> (t: Tool)
        ensures
            t == if buttons == 2 || button == 2 {
                Tool::Erase
            } else {
                Tool::Sand
            },
    {
        if buttons == 2 || button == 2 {
            Tool::Erase
        } else {
            Tool::Sand
        }
    }
}

/// The column or row of cells in which a pixel coordinate of the drawing
/// surface lies.
pub fn cell_of_pixel(p: usize) -> (c: isize)
    ensures
        c == p as int / CELL_SIZE as int,
{
    (p / CELL_SIZE) as isize
}

/// The top left pixel of the square as which the cell at `(x, y)` is drawn.
pub open spec fn corner(x: int, y: int) -> (usize, usize) {
    ((x * CELL_SIZE) as usize, (y * CELL_SIZE) as usize)
}

/// The corners of the sand cells of row `y`, from left to right.
pub open spec fn squares_in_row(row: Seq<Cell>, y: int) -> Seq<(usize, usize)>
    decreases row.len(),
{
    if row.len() == 0 {
        Seq::empty()
    } else if row.last() == Cell::Sand {
        squares_in_row(row.drop_last(), y).push(corner(row.len() - 1, y))
    } else {
        squares_in_row(row.drop_last(), y)
    }
}

/// The corners of the sand cells of a grid, row by row from the top.
pub open spec fn squares_of(g: Grid) -> Seq<(usize, usize)>
    decreases g.len(),
{
    if g.len() == 0 {
        Seq::empty()
    } else {
        squares_of(g.drop_last()) + squares_in_row(g.last(), g.len() - 1)
    }
}

/// A row gives one square for each of its grains.
pub proof fn lemma_squares_in_row_len(row: Seq<Cell>, y: int)
    ensures
        squares_in_row(row, y).len() == grains_in_row(row),
    decreases row.len(),
{
    if row.len() > 0 {
        lemma_squares_in_row_len(row.drop_last(), y);
    }
}

/// A grid gives one square for each of its grains.
pub proof fn lemma_squares_len(g: Grid)
    ensures
        squares_of(g).len() == grains(g),
    decreases g.len(),
{
    if g.len() > 0 {
        lemma_squares_len(g.drop_last());
        lemma_squares_in_row_len(g.last(), g.len() - 1);
    }
}

/// The squares of a row are the corners of its sand cells.
pub proof fn lemma_squares_in_row_contain(row: Seq<Cell>, y: int, s: (usize, usize))
    ensures
        squares_in_row(row, y).contains(s) <==> exists|x: int|
            0 <= x < row.len() && row[x] == Cell::Sand && s == #[trigger] corner(x, y),
    decreases row.len(),
{
    if row.len() > 0 {
        let front = row.drop_last();
        let last = row.len() - 1;
        lemma_squares_in_row_contain(front, y, s);
        if squares_in_row(row, y).contains(s) {
            let i = choose|i: int|
                0 <= i < squares_in_row(row, y).len() && squares_in_row(row, y)[i] == s;
            if i < squares_in_row(front, y).len() {
                assert(squares_in_row(front, y)[i] == s);
                assert(squares_in_row(front, y).contains(s));
                let x = choose|x: int|
                    0 <= x < front.len() && front[x] == Cell::Sand && s == #[trigger] corner(x, y);
                assert(row[x] == Cell::Sand);
            } else {
                assert(row[last] == Cell::Sand && s == corner(last, y));
            }
        }
        if exists|x: int| 0 <= x < row.len() && row[x] == Cell::Sand && s == #[trigger] corner(x, y) {
            let x = choose|x: int|
                0 <= x < row.len() && row[x] == Cell::Sand && s == #[trigger] corner(x, y);
            if x < last {
                assert(front[x] == Cell::Sand);
                assert(squares_in_row(front, y).contains(s));
                let i = choose|i: int|
                    0 <= i < squares_in_row(front, y).len() && squares_in_row(front, y)[i] == s;
                assert(squares_in_row(row, y)[i] == s);
            } else {
                let all = squares_in_row(row, y);
                assert(all[all.len() - 1] == s);
            }
        }
    }
}

/// The squares of a grid are the corners of its sand cells.
pub proof fn lemma_squares_contain(g: Grid, s: (usize, usize))
    ensures
        squares_of(g).contains(s) <==> exists|x: int, y: int|
            0 <= y < g.len() && 0 <= x < g[y].len() && g[y][x] == Cell::Sand && s
                == #[trigger] corner(x, y),
    decreases g.len(),
{
    if g.len() > 0 {
        let front = g.drop_last();
        let last = g.len() - 1;
        let head = squares_of(front);
        let tail = squares_in_row(g.last(), last);
        lemma_squares_contain(front, s);
        lemma_squares_in_row_contain(g.last(), last, s);
        if squares_of(g).contains(s) {
            let i = choose|i: int| 0 <= i < squares_of(g).len() && squares_of(g)[i] == s;
            if i < head.len() {
                assert(head[i] == s);
                assert(head.contains(s));
                let (x, y) = choose|x: int, y: int|
                    0 <= y < front.len() && 0 <= x < front[y].len() && front[y][x] == Cell::Sand
                        && s == #[trigger] corner(x, y);
                assert(g[y][x] == Cell::Sand);
            } else {
                assert(tail[i - head.len()] == s);
                assert(tail.contains(s));
                let x = choose|x: int|
                    0 <= x < g.last().len() && g.last()[x] == Cell::Sand && s == #[trigger] corner(
                        x,
                        last,
                    );
                assert(g[last][x] == Cell::Sand);
            }
        }
        if exists|x: int, y: int|
            0 <= y < g.len() && 0 <= x < g[y].len() && g[y][x] == Cell::Sand && s
                == #[trigger] corner(x, y) {
            let (x, y) = choose|x: int, y: int|
                0 <= y < g.len() && 0 <= x < g[y].len() && g[y][x] == Cell::Sand && s
                    == #[trigger] corner(x, y);
            if y < last {
                assert(front[y][x] == Cell::Sand);
                assert(head.contains(s));
                let i = choose|i: int| 0 <= i < head.len() && head[i] == s;
                assert(squares_of(g)[i] == s);
            } else {
                assert(g.last()[x] == Cell::Sand);
                assert(tail.contains(s));
                let i = choose|i: int| 0 <= i < tail.len() && tail[i] == s;
                assert(squares_of(g)[head.len() + i] == s);
            }
        }
    }
}

impl World {
    /// The squares to draw for a frame: the top left pixel of each sand
    /// cell's square, row by row from the top and from left to right in
    /// each row. Every square has the side `CELL_SIZE`.
    pub fn squares(&self) -> (v: Vec<(usize, usize)>)
        ensures
            v@ == squares_of(self@),
            v@.len() == grains(self@),
    {
        proof {
            lemma_squares_len(self@);
        }
        let mut v: Vec<(usize, usize)> = Vec::new();
        let mut y: usize = 0;
        while y < HEIGHT
            invariant
                y <= HEIGHT,
                v@ == squares_of(self@.take(y as int)),
            decreases HEIGHT - y,
        {
            let ghost row = self@[y as int];
            let ghost above = v@;
            let mut x: usize = 0;
            while x < WIDTH
                invariant
                    x <= WIDTH,
                    y < HEIGHT,
                    row == self@[y as int],
                    v@ == above + squares_in_row(row.take(x as int), y as int),
                decreases WIDTH - x,
            {
                if self.grid[y][x] == Cell::Sand {
                    v.push((x * CELL_SIZE, y * CELL_SIZE));
                }
                x = x + 1;
                assert(row.take(x as int).drop_last() =~= row.take(x - 1));
                assert(v@ =~= above + squares_in_row(row.take(x as int), y as int));
            }
            y = y + 1;
            assert(row.take(WIDTH as int) =~= row);
            assert(self@.take(y as int).drop_last() =~= self@.take(y - 1));
        }
        assert(self@.take(HEIGHT as int) =~= self@);
        v
    }
}

} // verus!
