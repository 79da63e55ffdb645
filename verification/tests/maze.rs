use game_search::maze::{Action, GameState};
use game_search::GameStateBase;
use rand::rngs::StdRng;
use rand::{Rng, SeedableRng};

fn board_of(state: &GameState) -> Vec<Vec<i32>> {
    (0..state.h())
        .map(|y| (0..state.w()).map(|x| state.point(y, x)).collect())
        .collect()
}

fn corner(h: usize, w: usize, y: usize, x: usize) -> GameState {
    for seed in 0..100_000u64 {
        let state = GameState::new(h, w, 4, seed);
        if (state.y(), state.x()) == (y, x) {
            return state;
        }
    }
    unreachable!()
}

#[test]
fn new_game_starts_at_zero() {
    let state = GameState::new(3, 3, 4, 1);
    assert_eq!(state.h(), 3);
    assert_eq!(state.w(), 3);
    assert_eq!(state.max_turns(), 4);
    assert_eq!(state.turn(), 0);
    assert_eq!(state.score(), 0);
    assert!(state.y() < 3 && state.x() < 3);
    assert!(!state.is_game_over());
}

#[test]
fn new_game_is_drawn_column_by_column_then_the_mover() {
    for seed in [0u64, 1, 2, 77, 1234] {
        let state = GameState::new(3, 5, 4, seed);
        let mut rng = StdRng::seed_from_u64(seed);
        for x in 0..5 {
            for y in 0..3 {
                let expected: i32 = rng.gen_range(1..10);
                assert_eq!(state.point(y, x), expected);
            }
        }
        let y: usize = rng.gen_range(0..3);
        let x: usize = rng.gen_range(0..5);
        assert_eq!((state.y(), state.x()), (y, x));
    }
}

#[test]
fn new_game_places_the_mover_all_over_the_board() {
    let mut seen = vec![vec![false; 3]; 3];
    for seed in 0..200u64 {
        let state = GameState::new(3, 3, 4, seed);
        seen[state.y()][state.x()] = true;
    }
    assert!(seen.iter().flatten().all(|s| *s));
}

#[test]
fn new_game_is_a_function_of_its_arguments() {
    let a = GameState::new(4, 4, 6, 2024);
    let b = GameState::new(4, 4, 6, 2024);
    assert_eq!(board_of(&a), board_of(&b));
    assert_eq!((a.y(), a.x()), (b.y(), b.x()));
}

#[test]
fn valid_actions_of_the_single_mover() {
    assert_eq!(corner(3, 3, 0, 0).valid_actions(), vec![Action::Down, Action::Right]);
    assert_eq!(corner(3, 3, 2, 2).valid_actions(), vec![Action::Up, Action::Left]);
    assert_eq!(
        corner(3, 3, 1, 1).valid_actions(),
        vec![Action::Up, Action::Down, Action::Left, Action::Right]
    );
    assert_eq!(
        corner(3, 3, 1, 0).valid_actions(),
        vec![Action::Up, Action::Down, Action::Right]
    );
    assert_eq!(GameState::new(1, 1, 4, 0).valid_actions(), Vec::<Action>::new());
}

#[test]
fn advance_moves_one_cell_and_collects_it() {
    let steps = [
        (Action::Up, (0usize, 1usize)),
        (Action::Down, (2, 1)),
        (Action::Left, (1, 0)),
        (Action::Right, (1, 2)),
    ];
    for (action, to) in steps {
        let mut state = corner(3, 3, 1, 1);
        let before = board_of(&state);
        state.advance(action);
        assert_eq!((state.y(), state.x()), to);
        assert_eq!(state.turn(), 1);
        assert_eq!(state.score(), before[to.0][to.1]);
        let after = board_of(&state);
        for y in 0..3 {
            for x in 0..3 {
                let expected = if (y, x) == to { 0 } else { before[y][x] };
                assert_eq!(after[y][x], expected);
            }
        }
    }
}

#[test]
fn stepping_back_onto_an_empty_cell_adds_nothing() {
    let mut state = corner(3, 3, 1, 1);
    state.advance(Action::Up);
    state.advance(Action::Down);
    let score = state.score();
    state.advance(Action::Up);
    assert_eq!(state.score(), score);
    assert_eq!(state.turn(), 3);
}

#[test]
fn single_mover_game_ends_at_the_limit() {
    let mut state = corner(3, 3, 0, 0);
    let mut last = 0;
    for action in [Action::Down, Action::Right, Action::Up, Action::Left] {
        assert!(!state.is_game_over());
        state.advance(action);
        assert!(state.score() >= last);
        last = state.score();
    }
    assert!(state.is_game_over());
    assert_eq!(state.turn(), state.max_turns());
    assert!(GameState::new(3, 3, 0, 5).is_game_over());
    assert!(GameState::new(3, 3, -3, 5).is_game_over());
}

#[test]
fn board_that_is_not_square_is_played_within_its_bounds() {
    let mut state = GameState::new(2, 6, 40, 3);
    let mut turn = 0;
    while !state.is_game_over() {
        let actions = state.valid_actions();
        let action = actions[turn % actions.len()];
        state.advance(action);
        assert!(state.y() < 2 && state.x() < 6);
        assert_eq!(state.point(state.y(), state.x()), 0);
        turn += 1;
    }
    assert_eq!(state.turn(), 40);
}
