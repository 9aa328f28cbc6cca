//! The brush: a filled disc of sand or of emptiness stamped onto the grid.
//!
//! The size of a brush is the diameter of its disc in cells, so its radius
//! is half its size. A cell at offset `(dx, dy)` from the centre of the
//! stroke is covered if the centre of the cell, at
//! `(dx + 1/2, dy + 1/2)`, is no farther from the origin than the radius:
//! `(dx + 1/2)^2 + (dy + 1/2)^2 <= (size / 2)^2`. Testing the centres of
//! the cells, not their corners, makes the disc round. Here the comparison
//! is stated in whole numbers, with both of its sides multiplied by four.

use vstd::prelude::*;
use crate::cell::Tool;
use crate::grid::{Grid, HEIGHT, WIDTH, World, in_bounds, is_grid, with_cell};

verus! {

/// Four times the squared distance from the origin to the centre of the
/// cell at offset `(dx, dy)`.
pub open spec fn reach(dx: int, dy: int) -> int {
    (2 * dx + 1) * (2 * dx + 1) + (2 * dy + 1) * (2 * dy + 1)
}

/// A brush of the given size, centred on the origin, covers the cell at
/// offset `(dx, dy)`.
pub open spec fn in_brush(dx: int, dy: int, brush: int) -> bool {
    reach(dx, dy) <= brush * brush
}

/// The grid after a stroke of the given size and tool centred on
/// `(cx, cy)`: covered cells hold the tool's material, all others are as
/// they were.
pub open spec fn painted(g: Grid, cx: int, cy: int, brush: int, tool: Tool) -> Grid {
    Seq::new(
        HEIGHT as nat,
        |y: int|
            Seq::new(
                WIDTH as nat,
                |x: int|
                    if in_brush(x - cx, y - cy, brush) {
                        tool.spec_material()
                    } else {
                        g[y][x]
                    },
            ),
    )
}

/// A covered cell lies within the square of offsets `-brush ..= brush`.
pub proof fn lemma_brush_within_box(dx: int, dy: int, brush: int)
    requires
        0 <= brush,
        in_brush(dx, dy, brush),
    ensures
        -brush <= dx <= brush,
        -brush <= dy <= brush,
{
    lemma_square_bound(2 * dx + 1, 2 * dy + 1, brush);
}

/// If the squares of `a` and `b` sum to at most the square of `r`, neither
/// exceeds `r` in size.
proof fn lemma_square_bound(a: int, b: int, r: int)
    by (nonlinear_arith)
    requires
        0 <= r,
        a * a + b * b <= r * r,
    ensures
        -r <= a <= r,
        -r <= b <= r,
{
}

/// Erase idempotence, and the same for sand: a stroke repeated with the
/// same centre, size and tool leaves the grid as the first stroke left it.
pub proof fn lemma_paint_is_idempotent(g: Grid, cx: int, cy: int, brush: int, tool: Tool)
    ensures
        painted(painted(g, cx, cy, brush, tool), cx, cy, brush, tool) == painted(
            g,
            cx,
            cy,
            brush,
            tool,
        ),
{
    assert(painted(painted(g, cx, cy, brush, tool), cx, cy, brush, tool) =~~= painted(
        g,
        cx,
        cy,
        brush,
        tool,
    ));
}

/// A stroke whose centre lies farther from the grid than its size, on any
/// side, leaves the grid as it was.
pub proof fn lemma_stroke_off_grid(g: Grid, cx: int, cy: int, brush: int, tool: Tool)
    requires
        is_grid(g),
        0 <= brush,
        cx + brush < 0 || WIDTH <= cx - brush || cy + brush < 0 || HEIGHT <= cy - brush,
    ensures
        painted(g, cx, cy, brush, tool) == g,
{
    assert forall|dx: int, dy: int| in_bounds(cx + dx, cy + dy) implies !#[trigger] in_brush(
        dx,
        dy,
        brush,
    ) by {
        if in_brush(dx, dy, brush) {
            lemma_brush_within_box(dx, dy, brush);
        }
    }
    assert(painted(g, cx, cy, brush, tool) =~~= g);
}

/// A stroke of size zero covers nothing.
pub proof fn lemma_empty_brush(g: Grid, cx: int, cy: int, tool: Tool)
    requires
        is_grid(g),
    ensures
        painted(g, cx, cy, 0, tool) == g,
{
    assert forall|x: int, y: int| !in_brush(x, y, 0) by {
        lemma_odd_square_is_positive(2 * x + 1);
        lemma_odd_square_is_positive(2 * y + 1);
    }
    assert(painted(g, cx, cy, 0, tool) =~~= g);
}

proof fn lemma_odd_square_is_positive(a: int)
    by (nonlinear_arith)
    requires
        a != 0,
    ensures
        a * a > 0,
{
}

/// `v` held to the range `0 ..= limit`.
fn clip(v: i128, limit: usize) -> (c: usize)
    ensures
        c <= limit,
        0 <= v <= limit ==> c == v,
        v < 0 ==> c == 0,
        v > limit ==> c == limit,
{
    if v < 0 {
        0
    } else if v > limit as i128 {
        limit
    } else {
        v as usize
    }
}

/// Whether a brush of the given size centred on `(cx, cy)` covers the cell
/// at `(x, y)`.
fn covers(x: usize, y: usize, cx: isize, cy: isize, brush: u32) -> (c: bool)
    requires
        in_bounds(x as int, y as int),
        -brush <= x - cx <= brush,
        -brush <= y - cy <= brush,
    ensures
        c == in_brush(x - cx, y - cy, brush as int),
{
    let a: i128 = 2 * (x as i128 - cx as i128) + 1;
    let b: i128 = 2 * (y as i128 - cy as i128) + 1;
    let r: i128 = brush as i128;
    assert(0 <= a * a <= 0x4_0000_0000_0000_0000) by (nonlinear_arith)
        requires
            -0x2_0000_0000 <= a <= 0x2_0000_0000,
    ;
    assert(0 <= b * b <= 0x4_0000_0000_0000_0000) by (nonlinear_arith)
        requires
            -0x2_0000_0000 <= b <= 0x2_0000_0000,
    ;
    assert(0 <= r * r <= 0x1_0000_0000_0000_0000) by (nonlinear_arith)
        requires
            0 <= r <= 0x1_0000_0000,
    ;
    a * a + b * b <= r * r
}

impl World {
    /// Stamps a brush stroke of the given size and tool, centred on
    /// `(x, y)`, onto the grid. The centre may lie anywhere, also outside
    /// the grid; of the disc only what lies inside the grid is painted.
    pub fn paint(&mut self, x: isize, y: isize, brush: u32, tool: Tool)
        ensures
            final(self)@ == painted(old(self)@, x as int, y as int, brush as int, tool),
    {
        let material = tool.material();
        let left = clip(x as i128 - brush as i128, WIDTH);
        let right = clip(x as i128 + brush as i128 + 1, WIDTH);
        let top = clip(y as i128 - brush as i128, HEIGHT);
        let bottom = clip(y as i128 + brush as i128 + 1, HEIGHT);
        proof {
            assert forall|cx: int, cy: int|
                in_bounds(cx, cy) && #[trigger] in_brush(cx - x, cy - y, brush as int) implies left
                <= cx < right && top <= cy < bottom by {
                lemma_brush_within_box(cx - x, cy - y, brush as int);
            }
        }
        let mut ny: usize = top;
        while ny < bottom
            invariant
                top <= ny,
                bottom <= HEIGHT,
                right <= WIDTH,
                material == tool.spec_material(),
                forall|cx: int, cy: int|
                    in_bounds(cx, cy) && #[trigger] in_brush(cx - x, cy - y, brush as int) ==> left
                        <= cx < right && top <= cy < bottom,
                left < WIDTH ==> x - brush <= left,
                0 < right ==> right <= x + brush + 1,
                top < HEIGHT ==> y - brush <= top,
                0 < bottom ==> bottom <= y + brush + 1,
                forall|cx: int, cy: int|
                    in_bounds(cx, cy) ==> (#[trigger] self@[cy][cx]) == if cy < ny && in_brush(
                        cx - x,
                        cy - y,
                        brush as int,
                    ) {
                        material
                    } else {
                        old(self)@[cy][cx]
                    },
            decreases bottom - ny,
        {
            let mut nx: usize = left;
            while nx < right
                invariant
                    left <= nx,
                    top <= ny < bottom,
                    bottom <= HEIGHT,
                    right <= WIDTH,
                    material == tool.spec_material(),
                    forall|cx: int, cy: int|
                        in_bounds(cx, cy) && #[trigger] in_brush(cx - x, cy - y, brush as int)
                            ==> left <= cx < right && top <= cy < bottom,
                    left < WIDTH ==> x - brush <= left,
                    0 < right ==> right <= x + brush + 1,
                    top < HEIGHT ==> y - brush <= top,
                    0 < bottom ==> bottom <= y + brush + 1,
                    forall|cx: int, cy: int|
                        in_bounds(cx, cy) ==> (#[trigger] self@[cy][cx]) == if (cy < ny || (cy
                            == ny && cx < nx)) && in_brush(cx - x, cy - y, brush as int) {
                            material
                        } else {
                            old(self)@[cy][cx]
                        },
                decreases right - nx,
            {
                let ghost before = self@;
                if covers(nx, ny, x, y, brush) {
                    self.grid[ny][nx] = material;
                    assert(self@ =~~= with_cell(before, nx as int, ny as int, material));
                }
                nx = nx + 1;
            }
            ny = ny + 1;
        }
        assert(self@ =~~= painted(old(self)@, x as int, y as int, brush as int, tool));
    }
}

} // verus!
