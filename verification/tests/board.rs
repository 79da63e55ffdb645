use game_search::board::{Board, POINT_HIGH, POINT_LOW};
use rand::rngs::StdRng;
use rand::{Rng, SeedableRng};

#[test]
fn seeded_board_is_filled_line_by_line() {
    let mut rng = StdRng::seed_from_u64(5);
    let mut expected = StdRng::seed_from_u64(5);
    let board = Board::seeded(&mut rng, 3, 4);
    assert_eq!(board.lines(), 3);
    assert_eq!(board.width(), 4);
    for i in 0..3 {
        for j in 0..4 {
            let value: i32 = expected.gen_range(POINT_LOW..POINT_HIGH);
            assert_eq!(board.get(i, j), value);
        }
    }
    assert_eq!(rng.gen_range(0..1_000_000), expected.gen_range(0..1_000_000));
}

#[test]
fn seeded_board_holds_every_value_from_one_to_nine() {
    let mut rng = StdRng::seed_from_u64(1);
    let board = Board::seeded(&mut rng, 30, 30);
    let mut seen = [false; 10];
    for i in 0..30 {
        for j in 0..30 {
            let value = board.get(i, j);
            assert!((1..10).contains(&value));
            seen[value as usize] = true;
        }
    }
    assert_eq!(seen, [false, true, true, true, true, true, true, true, true, true]);
}

#[test]
fn seeded_board_may_be_empty() {
    let mut rng = StdRng::seed_from_u64(1);
    let mut untouched = StdRng::seed_from_u64(1);
    let board = Board::seeded(&mut rng, 0, 7);
    assert_eq!(board.lines(), 0);
    assert_eq!(board.width(), 7);
    let other = Board::seeded(&mut rng, 7, 0);
    assert_eq!(other.lines(), 7);
    assert_eq!(rng.gen_range(0..1_000_000), untouched.gen_range(0..1_000_000));
}

#[test]
fn take_empties_one_cell_and_returns_its_value() {
    let mut rng = StdRng::seed_from_u64(3);
    let mut board = Board::seeded(&mut rng, 4, 5);
    let before = board.clone();
    let value = board.take(2, 3);
    assert_eq!(value, before.get(2, 3));
    assert_eq!(board.get(2, 3), 0);
    assert_eq!(board.take(2, 3), 0);
    for i in 0..4 {
        for j in 0..5 {
            if (i, j) != (2, 3) {
                assert_eq!(board.get(i, j), before.get(i, j));
            }
        }
    }
}
