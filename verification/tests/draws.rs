use falling_sand::draws::shuffle;
use falling_sand::{Choice, Draws, RowDraws, Side, WIDTH};

fn identity() -> [usize; WIDTH] {
    let mut order = [0usize; WIDTH];
    for (i, slot) in order.iter_mut().enumerate() {
        *slot = i;
    }
    order
}

fn assert_visits_each_column_once(order: &[usize; WIDTH]) {
    let mut seen = [false; WIDTH];
    for x in order.iter() {
        assert!(*x < WIDTH);
        assert!(!seen[*x]);
        seen[*x] = true;
    }
}

#[test]
fn shuffle_without_picks_changes_nothing() {
    let mut order = identity();
    shuffle(&mut order, &Vec::new());
    assert!(order == identity());
}

#[test]
fn shuffle_swaps_the_last_position_with_the_first_pick() {
    let mut order = identity();
    shuffle(&mut order, &vec![0]);
    assert_eq!(&order[..3], &[199, 1, 2]);
    assert_eq!(&order[WIDTH - 3..], &[197, 198, 0]);
    assert_visits_each_column_once(&order);
}

#[test]
fn shuffle_walks_down_from_the_last_position() {
    let mut order = identity();
    shuffle(&mut order, &vec![0, 0, 0]);
    assert_eq!(&order[..4], &[197, 1, 2, 3]);
    assert_eq!(&order[WIDTH - 4..], &[196, 198, 199, 0]);
    assert_visits_each_column_once(&order);
}

#[test]
fn shuffle_ignores_a_pick_beyond_its_position() {
    let mut order = identity();
    shuffle(&mut order, &vec![199, 199, 5]);
    assert_eq!(&order[..7], &[0, 1, 2, 3, 4, 197, 6]);
    assert_eq!(&order[WIDTH - 4..], &[196, 5, 198, 199]);
    assert_visits_each_column_once(&order);

    let mut order = identity();
    shuffle(&mut order, &vec![usize::MAX; 500]);
    assert!(order == identity());
}

#[test]
fn shuffle_of_any_picks_visits_each_column_once() {
    let mut state: u64 = 99;
    let mut order = identity();
    for _ in 0..10 {
        let mut picks = Vec::new();
        for _ in 0..WIDTH {
            state = state.wrapping_mul(6364136223846793005).wrapping_add(1442695040888963407);
            picks.push((state >> 33) as usize % (2 * WIDTH));
        }
        shuffle(&mut order, &picks);
        assert_visits_each_column_once(&order);
    }
    assert!(order != identity());
}

#[test]
fn sides() {
    assert_eq!(Side::Left.other(), Side::Right);
    assert_eq!(Side::Right.other(), Side::Left);
    assert_eq!(Side::Left.neighbor(0), None);
    assert_eq!(Side::Left.neighbor(1), Some(0));
    assert_eq!(Side::Left.neighbor(WIDTH - 1), Some(WIDTH - 2));
    assert_eq!(Side::Left.neighbor(WIDTH), Some(WIDTH - 1));
    assert_eq!(Side::Left.neighbor(WIDTH + 1), None);
    assert_eq!(Side::Right.neighbor(0), Some(1));
    assert_eq!(Side::Right.neighbor(WIDTH - 2), Some(WIDTH - 1));
    assert_eq!(Side::Right.neighbor(WIDTH - 1), None);
    assert_eq!(Side::Right.neighbor(usize::MAX), None);
}

#[test]
fn absent_draws_fall_back_to_the_fixed_choice() {
    let fixed = Choice { diagonal: Side::Left, roll: None };
    let drawn = Choice { diagonal: Side::Right, roll: Some(Side::Left) };
    let row = RowDraws { picks: Vec::new(), choices: vec![drawn, fixed, drawn] };
    assert_eq!(row.choice(0), drawn);
    assert_eq!(row.choice(1), fixed);
    assert_eq!(row.choice(2), drawn);
    assert_eq!(row.choice(3), fixed);
    assert_eq!(row.choice(usize::MAX), fixed);

    let draws = Draws { rows: vec![row] };
    assert!(draws.row(0).is_some());
    assert_eq!(draws.row(0).unwrap().choice(2), drawn);
    assert!(draws.row(1).is_none());
    assert!(Draws::fixed().rows.is_empty());
    assert!(Draws::fixed().row(0).is_none());
}
