use game_search::automovemaze::State;
use game_search::board::Board;
use game_search::maze::beam_search::BeamSearchAgent;
use game_search::maze::chokudai_search::ChokudaiSearchAgent;
use game_search::maze::greedy::GreedyAgent;
use game_search::maze::{Action, GameState};
use game_search::{Agent, GameStateBase};

fn board_of_rows(rows: &[&[i32]]) -> Board {
    let width = rows.first().map_or(0, |row| row.len());
    Board::from_cells(rows.iter().map(|row| row.to_vec()).collect(), width).unwrap()
}

/// A game with one mover on the board with the given rows.
fn game(rows: &[&[i32]], y: usize, x: usize, max_turns: i32) -> GameState {
    let h = rows.len();
    let w = rows[0].len();
    let columns: Vec<Vec<i32>> = (0..w).map(|x| (0..h).map(|y| rows[y][x]).collect()).collect();
    let board = Board::from_cells(columns, h).unwrap();
    GameState::with_board(board, y, x, max_turns).unwrap()
}

const TRAP: [&[i32]; 3] = [&[0, 1, 9], &[2, 0, 0], &[0, 0, 0]];

#[test]
fn from_cells_takes_lines_of_equal_length_with_values_up_to_nine() {
    let board = Board::from_cells(vec![vec![0, 9, 3], vec![4, 5, 6]], 3).unwrap();
    assert_eq!(board.lines(), 2);
    assert_eq!(board.width(), 3);
    assert_eq!(board.get(0, 1), 9);
    assert_eq!(board.get(1, 2), 6);
    assert!(Board::from_cells(Vec::new(), 4).is_some());
    assert!(Board::from_cells(vec![vec![1, 2], vec![3]], 2).is_none());
    assert!(Board::from_cells(vec![vec![1, 2]], 3).is_none());
    assert!(Board::from_cells(vec![vec![1, 10]], 2).is_none());
    assert!(Board::from_cells(vec![vec![-1, 1]], 2).is_none());
}

#[test]
fn fits_score_holds_up_to_the_largest_board_that_an_i32_can_count() {
    assert!(board_of_rows(&[&[1, 2], &[3, 4]]).fits_score());
    assert!(Board::from_cells(Vec::new(), usize::MAX).unwrap().fits_score());
    let wide = Board::from_cells(vec![Vec::new(), Vec::new()], 0).unwrap();
    assert!(wide.fits_score());
    assert_eq!(game_search::board::MAX_CELLS, (i32::MAX / 9) as usize);
}

#[test]
fn with_board_starts_a_game_on_the_board_given() {
    let state = State::with_board(board_of_rows(&[&[1, 2, 3], &[4, 5, 6]]), 2, 7).unwrap();
    assert_eq!((state.h(), state.w()), (2, 3));
    assert_eq!(state.max_turn(), 7);
    assert_eq!(state.turn(), 0);
    assert_eq!(state.score(), 0);
    assert_eq!(state.num_characters(), 2);
    assert_eq!(state.point(0, 0), 1);
    assert_eq!(state.point(1, 2), 6);
    assert!(State::with_board(board_of_rows(&[]), 1, 7).is_none());
    assert!(State::with_board(board_of_rows(&[]), 0, 7).is_some());

    let single = game(&[&[1, 2, 3], &[4, 5, 6]], 1, 2, 7);
    assert_eq!((single.h(), single.w()), (2, 3));
    assert_eq!((single.y(), single.x()), (1, 2));
    assert_eq!(single.point(0, 1), 2);
    assert_eq!(single.point(1, 0), 4);
    let columns = Board::from_cells(vec![vec![1, 4], vec![2, 5], vec![3, 6]], 2).unwrap();
    assert!(GameState::with_board(columns.clone(), 2, 0, 7).is_none());
    assert!(GameState::with_board(columns, 0, 3, 7).is_none());
}

#[test]
fn movers_walk_to_the_richest_neighbour_round_by_round() {
    let board = board_of_rows(&[&[1, 2, 3], &[4, 5, 6], &[7, 8, 9]]);
    let mut state = State::with_board(board, 1, 5).unwrap();
    let expected = [((1usize, 0usize), 4), ((2, 0), 11), ((2, 1), 19), ((2, 2), 28), ((1, 2), 34)];
    for (turn, (position, score)) in expected.iter().enumerate() {
        state.advance();
        let mover = state.characters()[0];
        assert_eq!((mover.y(), mover.x()), *position);
        assert_eq!(state.score(), *score);
        assert_eq!(state.turn(), turn as i32 + 1);
    }
    assert!(state.is_game_over());
}

#[test]
fn second_mover_finds_the_cell_of_the_first_empty() {
    let board = board_of_rows(&[&[1, 2], &[9, 3]]);
    let mut state = State::with_board(board, 2, 3).unwrap();
    state.advance();
    let movers: Vec<(usize, usize)> = state.characters().iter().map(|c| (c.y(), c.x())).collect();
    assert_eq!(movers, vec![(1, 0), (0, 1)]);
    assert_eq!(state.score(), 11);
    assert_eq!(state.point(1, 0), 0);
    assert_eq!(state.point(0, 1), 0);
}

#[test]
fn greedy_walks_into_the_trap() {
    let state = game(&TRAP, 0, 0, 2);
    assert_eq!(GreedyAgent::new().choose_action(&state), Some(Action::Down));
    let mut played = state.clone();
    GreedyAgent::new().play_game(&mut played);
    assert_eq!(played.score(), 2);
}

#[test]
fn greedy_takes_the_last_of_equal_actions() {
    let state = game(&[&[0, 5, 0], &[5, 0, 5], &[0, 5, 0]], 1, 1, 3);
    assert_eq!(GreedyAgent::new().choose_action(&state), Some(Action::Right));
    let lower = game(&[&[0, 5, 0], &[5, 0, 4], &[0, 5, 0]], 1, 1, 3);
    assert_eq!(GreedyAgent::new().choose_action(&lower), Some(Action::Left));
}

#[test]
fn beam_search_looks_past_the_trap() {
    let state = game(&TRAP, 0, 0, 2);
    assert_eq!(BeamSearchAgent::new(4, 2).choose_action(&state), Some(Action::Right));
    assert_eq!(BeamSearchAgent::new(1, 2).choose_action(&state), Some(Action::Down));
    assert_eq!(BeamSearchAgent::new(4, 1).choose_action(&state), Some(Action::Down));
    let mut played = state.clone();
    BeamSearchAgent::new(4, 2).play_game(&mut played);
    assert_eq!(played.score(), 10);
    assert_eq!((played.y(), played.x()), (0, 2));
}

#[test]
fn beam_search_takes_the_first_of_equal_paths() {
    let state = game(&[&[0, 5, 0], &[5, 0, 5], &[0, 5, 0]], 1, 1, 1);
    assert_eq!(BeamSearchAgent::new(4, 1).choose_action(&state), Some(Action::Up));
}

#[test]
fn chokudai_search_looks_past_the_trap_when_it_has_the_rounds() {
    let state = game(&TRAP, 0, 0, 2);
    assert_eq!(ChokudaiSearchAgent::new(1, 2, 1).choose_action(&state), Some(Action::Down));
    assert_eq!(ChokudaiSearchAgent::new(1, 2, 2).choose_action(&state), Some(Action::Right));
    assert_eq!(ChokudaiSearchAgent::new(2, 2, 1).choose_action(&state), Some(Action::Right));
    let mut played = state.clone();
    ChokudaiSearchAgent::new(1, 2, 2).play_game(&mut played);
    assert_eq!(played.score(), 10);
}

#[test]
fn chokudai_search_stops_at_the_end_of_the_game() {
    let state = game(&TRAP, 0, 0, 1);
    assert_eq!(ChokudaiSearchAgent::new(2, 5, 3).choose_action(&state), Some(Action::Down));
    assert_eq!(BeamSearchAgent::new(2, 5).choose_action(&state), Some(Action::Down));
}

fn drawn(rows: Vec<Vec<char>>) -> Vec<String> {
    rows.into_iter().map(|row| row.into_iter().collect()).collect()
}

#[test]
fn rows_are_drawn_with_movers_digits_and_dots() {
    let board = board_of_rows(&[&[1, 2, 3], &[4, 0, 6], &[7, 8, 9]]);
    let mut state = State::with_board(board, 2, 5).unwrap();
    let rows = drawn((0..3).map(|y| state.draw_row(y)).collect());
    assert_eq!(rows, vec!["@23", "4.6", "789"]);
    assert!(state.is_occupied(0, 0));
    assert!(!state.is_occupied(0, 1));
    state.advance();
    let rows = drawn((0..3).map(|y| state.draw_row(y)).collect());
    assert_eq!(rows, vec!["1@3", "@.6", "789"]);

    let mut single = game(&[&[1, 2, 3], &[4, 0, 6]], 1, 1, 5);
    let rows = drawn((0..2).map(|y| single.draw_row(y)).collect());
    assert_eq!(rows, vec!["123", "4@6"]);
    single.advance(Action::Right);
    single.advance(Action::Up);
    let rows = drawn((0..2).map(|y| single.draw_row(y)).collect());
    assert_eq!(rows, vec!["12@", "4.."]);
}
