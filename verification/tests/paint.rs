use falling_sand::{Cell, Tool, World, HEIGHT, WIDTH};

fn sand_cells_of(w: &World) -> Vec<(usize, usize)> {
    let mut cells = Vec::new();
    for y in 0..HEIGHT {
        for x in 0..WIDTH {
            if w.grid[y][x] == Cell::Sand {
                cells.push((x, y));
            }
        }
    }
    cells
}

#[test]
fn new_world_is_empty() {
    let w = World::new();
    assert_eq!(w.sand_count(), 0);
    assert!(sand_cells_of(&w).is_empty());
    assert_eq!(w.cell(0, 0), Some(Cell::Empty));
    assert_eq!(w.cell(WIDTH - 1, HEIGHT - 1), Some(Cell::Empty));
    assert_eq!(w.cell(WIDTH, 0), None);
    assert_eq!(w.cell(0, HEIGHT), None);
}

#[test]
fn paint_disc_of_size_four() {
    let mut w = World::new();
    w.paint(10, 10, 4, Tool::Sand);
    let expected = vec![
        (9, 8),
        (10, 8),
        (8, 9),
        (9, 9),
        (10, 9),
        (11, 9),
        (8, 10),
        (9, 10),
        (10, 10),
        (11, 10),
        (9, 11),
        (10, 11),
    ];
    assert_eq!(sand_cells_of(&w), expected);
    assert_eq!(w.sand_count(), 12);
    assert_eq!(w.grid[8][8], Cell::Empty);
    assert_eq!(w.grid[8][11], Cell::Empty);
    assert_eq!(w.grid[11][8], Cell::Empty);
    assert_eq!(w.grid[11][11], Cell::Empty);
}

#[test]
fn paint_disc_matches_the_formula() {
    let (cx, cy, brush) = (50isize, 40isize, 9u32);
    let mut w = World::new();
    w.paint(cx, cy, brush, Tool::Sand);
    for y in 0..HEIGHT {
        for x in 0..WIDTH {
            let a = 2 * (x as i64 - cx as i64) + 1;
            let b = 2 * (y as i64 - cy as i64) + 1;
            let inside = a * a + b * b <= (brush as i64) * (brush as i64);
            let expected = if inside { Cell::Sand } else { Cell::Empty };
            assert_eq!(w.grid[y][x], expected, "cell ({}, {})", x, y);
        }
    }
}

#[test]
fn paint_counts_by_brush_size() {
    let expected = [0usize, 0, 4, 4, 12, 16, 32];
    for (brush, count) in expected.iter().enumerate() {
        let mut w = World::new();
        w.paint(100, 75, brush as u32, Tool::Sand);
        assert_eq!(w.sand_count(), *count, "brush {}", brush);
    }
}

#[test]
fn paint_size_two_covers_the_four_cells_up_left() {
    let mut w = World::new();
    w.paint(20, 30, 2, Tool::Sand);
    assert_eq!(sand_cells_of(&w), vec![(19, 29), (20, 29), (19, 30), (20, 30)]);
}

#[test]
fn erase_clears_only_the_disc() {
    let mut w = World::new();
    w.paint(30, 30, 12, Tool::Sand);
    let full = w.sand_count();
    w.paint(30, 30, 4, Tool::Erase);
    assert_eq!(w.sand_count(), full - 12);
    assert_eq!(w.grid[30][30], Cell::Empty);
    assert_eq!(w.grid[28][28], Cell::Sand);
    assert_eq!(w.grid[31][31], Cell::Sand);
    assert_eq!(w.grid[30][33], Cell::Sand);
}

#[test]
fn erase_twice_is_erase_once() {
    let mut w = World::new();
    w.paint(40, 40, 15, Tool::Sand);
    w.paint(44, 38, 7, Tool::Erase);
    let once = w.grid;
    w.paint(44, 38, 7, Tool::Erase);
    assert!(w.grid == once);
}

#[test]
fn sand_twice_is_sand_once() {
    let mut w = World::new();
    w.paint(3, 3, 9, Tool::Sand);
    let once = w.grid;
    w.paint(3, 3, 9, Tool::Sand);
    assert!(w.grid == once);
}

#[test]
fn paint_with_centre_left_of_the_grid() {
    let mut w = World::new();
    w.paint(-5, 3, 20, Tool::Sand);
    assert_eq!(w.grid[3][0], Cell::Sand);
    assert_eq!(w.grid[3][4], Cell::Sand);
    assert_eq!(w.grid[3][5], Cell::Empty);
    assert_eq!(w.grid[0][0], Cell::Sand);
    for y in 0..HEIGHT {
        for x in 0..WIDTH {
            let a = 2 * (x as i64 + 5) + 1;
            let b = 2 * (y as i64 - 3) + 1;
            let expected = if a * a + b * b <= 400 { Cell::Sand } else { Cell::Empty };
            assert_eq!(w.grid[y][x], expected, "cell ({}, {})", x, y);
        }
    }
}

#[test]
fn paint_with_centre_below_and_right_of_the_grid() {
    let mut w = World::new();
    w.paint(WIDTH as isize + 1, HEIGHT as isize + 1, 8, Tool::Sand);
    let expected = vec![
        (WIDTH - 1, HEIGHT - 3),
        (WIDTH - 2, HEIGHT - 2),
        (WIDTH - 1, HEIGHT - 2),
        (WIDTH - 3, HEIGHT - 1),
        (WIDTH - 2, HEIGHT - 1),
        (WIDTH - 1, HEIGHT - 1),
    ];
    assert_eq!(sand_cells_of(&w), expected);
}

#[test]
fn paint_far_away_touches_nothing() {
    let mut w = World::new();
    w.paint(7, 7, 5, Tool::Sand);
    let before = w.grid;
    w.paint(isize::MAX, isize::MIN, u32::MAX, Tool::Erase);
    w.paint(isize::MIN, isize::MAX, u32::MAX, Tool::Erase);
    w.paint(-1000, 5, 30, Tool::Erase);
    w.paint(5, 100_000, 30, Tool::Erase);
    assert!(w.grid == before);
}

#[test]
fn paint_with_the_largest_brush_fills_the_grid() {
    let mut w = World::new();
    w.paint(100, 75, u32::MAX, Tool::Sand);
    assert_eq!(w.sand_count(), WIDTH * HEIGHT);
    w.paint(0, 0, u32::MAX, Tool::Erase);
    assert_eq!(w.sand_count(), 0);
}

#[test]
fn tool_materials() {
    assert_eq!(Tool::Sand.material(), Cell::Sand);
    assert_eq!(Tool::Erase.material(), Cell::Empty);
}
