use game_of_life::board::Board;
use game_of_life::life::count_neighbors;
use game_of_life::life::update_board;

fn board_from_rows(rows: &[&[bool]]) -> Board {
    let height = rows.len();
    let width = rows[0].len();
    let mut b = Board::new(width, height);
    for (y, row) in rows.iter().enumerate() {
        assert_eq!(row.len(), width);
        for (x, &alive) in row.iter().enumerate() {
            b.set(x, y, alive);
        }
    }
    b
}

fn boards_equal(a: &Board, b: &Board) -> bool {
    if a.width != b.width || a.height != b.height {
        return false;
    }
    for y in 0..a.height {
        for x in 0..a.width {
            if a.cell(x, y) != b.cell(x, y) {
                return false;
            }
        }
    }
    true
}

#[test]
fn update_preserves_dimensions() {
    let b = Board::from_coords(7, 5, &vec![(1usize, 1usize), (2, 2), (3, 3)]);
    let next = update_board(&b);
    assert_eq!(next.width, 7);
    assert_eq!(next.height, 5);
    let again = update_board(&next);
    assert_eq!(again.width, 7);
    assert_eq!(again.height, 5);
}

#[test]
fn dead_board_stays_dead() {
    let mut b = Board::new(5, 5);
    for _ in 0..10 {
        b = update_board(&b);
        assert_eq!(b.width, 5);
        assert_eq!(b.height, 5);
        for y in 0..5 {
            for x in 0..5 {
                assert!(!b.cell(x, y));
            }
        }
    }
}

#[test]
fn neighbor_counts_on_a_full_grid() {
    // Every cell of a 3x3 grid alive: the center sees all 8, an edge cell
    // sees 5, a corner sees 3.
    let mut b = Board::new(3, 3);
    for y in 0..3 {
        for x in 0..3 {
            b.set(x, y, true);
        }
    }
    assert_eq!(count_neighbors(&b, 1, 1), 8);
    assert_eq!(count_neighbors(&b, 1, 0), 5);
    assert_eq!(count_neighbors(&b, 0, 1), 5);
    assert_eq!(count_neighbors(&b, 0, 0), 3);
    assert_eq!(count_neighbors(&b, 2, 2), 3);
}

#[test]
fn neighbor_count_never_exceeds_eight() {
    let mut b = Board::new(6, 4);
    for y in 0..4 {
        for x in 0..6 {
            b.set(x, y, (x + y) % 2 == 0);
        }
    }
    for y in 0..4 {
        for x in 0..6 {
            assert!(count_neighbors(&b, x, y) <= 8);
        }
    }
}

#[test]
fn transition_rule_table() {
    let t = true;
    let f = false;
    // A live cell with a single live neighbor dies of underpopulation.
    let lonely = board_from_rows(&[&[t, t, f], &[f, f, f], &[f, f, f]]);
    assert!(!update_board(&lonely).cell(0, 0));
    // A live cell with two live neighbors survives.
    let pair = board_from_rows(&[&[t, t, t], &[f, f, f], &[f, f, f]]);
    assert!(update_board(&pair).cell(1, 0));
    // A live cell with four live neighbors dies of overpopulation.
    let crowded = board_from_rows(&[&[t, t, t], &[t, t, f], &[f, f, f]]);
    assert!(!update_board(&crowded).cell(1, 0));
    // A dead cell with exactly three live neighbors is born.
    let cradle = board_from_rows(&[&[t, t, t], &[f, f, f], &[f, f, f]]);
    assert!(update_board(&cradle).cell(1, 1));
    // A dead cell with two live neighbors stays dead.
    let quiet = board_from_rows(&[&[t, t, f], &[f, f, f], &[f, f, f]]);
    assert!(!update_board(&quiet).cell(1, 1));
}

#[test]
fn block_still_life_is_unchanged() {
    // A 2x2 block on an otherwise dead grid: each live cell has exactly 3
    // live neighbors, so one step changes nothing.
    let b = Board::from_coords(4, 4, &vec![(1usize, 1usize), (1, 2), (2, 1), (2, 2)]);
    let next = update_board(&b);
    assert!(boards_equal(&b, &next));
}

#[test]
fn blinker_oscillates_with_period_two() {
    // A vertical 3-cell blinker centered in a dead-bordered 5x5 grid.
    let vertical = Board::from_coords(5, 5, &vec![(1usize, 2usize), (2, 2), (3, 2)]);
    let horizontal = Board::from_coords(5, 5, &vec![(2usize, 1usize), (2, 2), (2, 3)]);
    let one = update_board(&vertical);
    assert!(boards_equal(&one, &horizontal));
    let two = update_board(&one);
    assert!(boards_equal(&two, &vertical));
    let three = update_board(&two);
    assert!(boards_equal(&three, &horizontal));
}
