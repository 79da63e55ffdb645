use game_search::maze::beam_search::BeamSearchAgent;
use game_search::maze::chokudai_search::ChokudaiSearchAgent;
use game_search::maze::frontier::{Candidate, Frontier};
use game_search::maze::greedy::GreedyAgent;
use game_search::maze::random::RandomAgent;
use game_search::maze::{Action, GameState};
use game_search::{Agent, GameStateBase};
use rand::rngs::StdRng;
use rand::{Rng, SeedableRng};

fn after(state: &GameState, action: Action) -> GameState {
    let mut next = state.clone();
    next.advance(action);
    next
}

/// The highest score that `turns` actions can reach from `state`.
fn best_reachable(state: &GameState, turns: usize) -> i32 {
    if turns == 0 || state.is_game_over() {
        return state.score();
    }
    state
        .valid_actions()
        .into_iter()
        .map(|action| best_reachable(&after(state, action), turns - 1))
        .max()
        .unwrap_or(state.score())
}

fn candidate(seed: u64, turns: &[Action], first: Option<Action>) -> Candidate {
    let mut state = GameState::new(3, 3, 10, seed);
    for action in turns {
        if state.valid_actions().contains(action) {
            state.advance(*action);
        }
    }
    Candidate { state, first_action: first }
}

#[test]
fn frontier_hands_out_the_best_first() {
    let mut frontier = Frontier::new();
    assert!(frontier.is_empty());
    assert!(frontier.pop().is_none());
    let mut scores = Vec::new();
    for seed in 0..12u64 {
        let c = candidate(seed, &[Action::Down, Action::Right, Action::Up], None);
        scores.push(c.state.score());
        frontier.push(c);
    }
    assert_eq!(frontier.len(), 12);
    scores.sort();
    scores.reverse();
    let mut popped = Vec::new();
    while let Some(c) = frontier.pop() {
        popped.push(c.state.score());
    }
    assert_eq!(popped, scores);
}

#[test]
fn frontier_keeps_equal_scores_in_the_order_they_came() {
    let mut frontier = Frontier::new();
    for first in [Action::Left, Action::Up, Action::Right] {
        frontier.push(candidate(4, &[], Some(first)));
    }
    assert_eq!(frontier.get(0).first_action, Some(Action::Left));
    assert_eq!(frontier.get(1).first_action, Some(Action::Up));
    assert_eq!(frontier.get(2).first_action, Some(Action::Right));
}

#[test]
fn frontier_truncate_keeps_the_best() {
    let mut frontier = Frontier::new();
    for seed in 0..10u64 {
        frontier.push(candidate(seed, &[Action::Down, Action::Up, Action::Right], None));
    }
    let best: Vec<i32> = (0..3).map(|i| frontier.get(i).state.score()).collect();
    frontier.truncate(3);
    assert_eq!(frontier.len(), 3);
    let kept: Vec<i32> = (0..3).map(|i| frontier.get(i).state.score()).collect();
    assert_eq!(kept, best);
    frontier.truncate(7);
    assert_eq!(frontier.len(), 3);
    frontier.truncate(0);
    assert!(frontier.is_empty());
}

#[test]
fn frontier_expand_adds_a_child_for_each_action() {
    let parent = candidate(6, &[], None);
    let actions = parent.state.valid_actions();
    let mut frontier = Frontier::new();
    frontier.expand(&parent);
    assert_eq!(frontier.len(), actions.len());
    for i in 0..frontier.len() {
        let child = frontier.get(i);
        let first = child.first_action.unwrap();
        assert!(actions.contains(&first));
        assert_eq!(child.state.score(), after(&parent.state, first).score());
        assert_eq!(child.state.turn(), 1);
    }
    let grandchild = candidate(6, &[Action::Down], Some(Action::Left));
    let mut below = Frontier::new();
    below.expand(&grandchild);
    for i in 0..below.len() {
        assert_eq!(below.get(i).first_action, Some(Action::Left));
    }
}

#[test]
fn frontier_expand_of_a_finished_game_adds_nothing() {
    let finished = Candidate { state: GameState::new(3, 3, 0, 1), first_action: None };
    let mut frontier = Frontier::new();
    frontier.expand(&finished);
    assert!(frontier.is_empty());
}

#[test]
fn greedy_takes_the_action_that_scores_most_at_once() {
    for seed in 0..50u64 {
        let state = GameState::new(4, 4, 5, seed);
        let chosen = GreedyAgent::new().choose_action(&state).unwrap();
        let actions = state.valid_actions();
        let best = actions.iter().map(|a| after(&state, *a).score()).max().unwrap();
        assert_eq!(after(&state, chosen).score(), best);
        let last = actions.iter().rev().find(|a| after(&state, **a).score() == best).unwrap();
        assert_eq!(chosen, *last);
    }
}

#[test]
fn greedy_has_no_choice_when_nothing_can_be_done() {
    assert_eq!(GreedyAgent::new().choose_action(&GameState::new(3, 3, 0, 1)), None);
    assert_eq!(GreedyAgent::new().choose_action(&GameState::new(1, 1, 4, 1)), None);
}

#[test]
fn random_agent_draws_one_of_the_valid_actions() {
    let state = GameState::new(3, 3, 4, 17);
    let actions = state.valid_actions();
    let mut seen = Vec::new();
    for seed in 0..40u64 {
        let mut rng = StdRng::seed_from_u64(seed);
        let mut expected = StdRng::seed_from_u64(seed);
        let chosen = RandomAgent::new(&mut rng).choose_action(&state).unwrap();
        assert_eq!(chosen, actions[expected.gen_range(0..actions.len())]);
        if !seen.contains(&chosen) {
            seen.push(chosen);
        }
    }
    assert_eq!(seen.len(), actions.len());
}

#[test]
fn random_agent_draws_nothing_where_no_action_is_offered() {
    let state = GameState::new(1, 1, 4, 17);
    let mut rng = StdRng::seed_from_u64(5);
    let mut untouched = StdRng::seed_from_u64(5);
    assert_eq!(RandomAgent::new(&mut rng).choose_action(&state), None);
    assert_eq!(rng.gen_range(0..1000), untouched.gen_range(0..1000));
}

#[test]
fn beam_search_of_depth_one_scores_what_greedy_scores() {
    for seed in 0..50u64 {
        let state = GameState::new(4, 4, 5, seed);
        let greedy = GreedyAgent::new().choose_action(&state).unwrap();
        for width in [1usize, 2, 4, 9] {
            let beam = BeamSearchAgent::new(width, 1).choose_action(&state).unwrap();
            assert_eq!(after(&state, beam).score(), after(&state, greedy).score());
        }
    }
}

#[test]
fn beam_search_with_a_wide_beam_finds_the_best_path() {
    for seed in 0..20u64 {
        let state = GameState::new(3, 3, 4, seed);
        let chosen = BeamSearchAgent::new(256, 4).choose_action(&state).unwrap();
        assert!(state.valid_actions().contains(&chosen));
        assert_eq!(best_reachable(&after(&state, chosen), 3), best_reachable(&state, 4));
    }
}

#[test]
fn beam_search_looks_no_further_than_the_end_of_the_game() {
    for seed in 0..20u64 {
        let state = GameState::new(3, 3, 2, seed);
        let deep = BeamSearchAgent::new(16, 9).choose_action(&state).unwrap();
        let exact = BeamSearchAgent::new(16, 2).choose_action(&state).unwrap();
        assert_eq!(deep, exact);
        assert_eq!(best_reachable(&after(&state, deep), 1), best_reachable(&state, 2));
    }
}

#[test]
fn beam_search_has_no_choice_without_room_or_depth() {
    let state = GameState::new(3, 3, 4, 3);
    assert_eq!(BeamSearchAgent::new(0, 4).choose_action(&state), None);
    assert_eq!(BeamSearchAgent::new(2, 0).choose_action(&state), None);
    assert_eq!(BeamSearchAgent::new(2, 4).choose_action(&GameState::new(3, 3, 0, 3)), None);
    assert_eq!(BeamSearchAgent::new(2, 4).choose_action(&GameState::new(1, 1, 4, 3)), None);
    assert!(BeamSearchAgent::new(1, 1).choose_action(&state).is_some());
}

#[test]
fn chokudai_search_of_one_round_chooses_what_beam_search_chooses() {
    for seed in 0..40u64 {
        let state = GameState::new(4, 4, 5, seed);
        for (width, depth) in [(1usize, 1usize), (2, 4), (3, 7), (5, 3)] {
            let beam = BeamSearchAgent::new(width, depth).choose_action(&state);
            let chokudai = ChokudaiSearchAgent::new(width, depth, 1).choose_action(&state);
            assert_eq!(chokudai, beam);
        }
    }
}

#[test]
fn chokudai_search_with_many_rounds_finds_the_best_path() {
    for seed in 0..20u64 {
        let state = GameState::new(3, 3, 3, seed);
        let chosen = ChokudaiSearchAgent::new(1, 3, 200).choose_action(&state).unwrap();
        assert!(state.valid_actions().contains(&chosen));
        assert_eq!(best_reachable(&after(&state, chosen), 2), best_reachable(&state, 3));
    }
}

#[test]
fn chokudai_search_has_no_choice_without_room_depth_or_rounds() {
    let state = GameState::new(3, 3, 4, 3);
    assert_eq!(ChokudaiSearchAgent::new(0, 4, 2).choose_action(&state), None);
    assert_eq!(ChokudaiSearchAgent::new(2, 0, 2).choose_action(&state), None);
    assert_eq!(ChokudaiSearchAgent::new(2, 4, 0).choose_action(&state), None);
    assert_eq!(ChokudaiSearchAgent::new(2, 4, 2).choose_action(&GameState::new(3, 3, 0, 3)), None);
    assert_eq!(ChokudaiSearchAgent::new(2, 4, 2).choose_action(&GameState::new(1, 1, 4, 3)), None);
    assert!(ChokudaiSearchAgent::new(1, 1, 1).choose_action(&state).is_some());
}

#[test]
fn play_game_plays_to_the_end() {
    for seed in 0..10u64 {
        let mut greedy = GameState::new(3, 3, 4, seed);
        GreedyAgent::new().play_game(&mut greedy);
        let mut beam = GameState::new(3, 3, 4, seed);
        BeamSearchAgent::new(2, 4).play_game(&mut beam);
        let mut chokudai = GameState::new(3, 3, 4, seed);
        ChokudaiSearchAgent::new(2, 4, 2).play_game(&mut chokudai);
        let mut random = GameState::new(3, 3, 4, seed);
        let mut rng = StdRng::seed_from_u64(seed);
        RandomAgent::new(&mut rng).play_game(&mut random);
        for state in [&greedy, &beam, &chokudai, &random] {
            assert!(state.is_game_over());
            assert_eq!(state.turn(), 4);
            assert!(state.score() >= 0);
        }
    }
}

#[test]
fn play_game_of_greedy_takes_the_greedy_action_each_turn() {
    let mut played = GameState::new(4, 4, 6, 31);
    let mut stepped = played.clone();
    GreedyAgent::new().play_game(&mut played);
    while !stepped.is_game_over() {
        let action = GreedyAgent::new().choose_action(&stepped).unwrap();
        stepped.advance(action);
    }
    assert_eq!(played.score(), stepped.score());
    assert_eq!((played.y(), played.x()), (stepped.y(), stepped.x()));
}

#[test]
fn exhaustive_beam_search_scores_no_less_than_greedy() {
    for seed in 0..30u64 {
        let mut greedy = GameState::new(3, 3, 4, seed);
        GreedyAgent::new().play_game(&mut greedy);
        let mut beam = GameState::new(3, 3, 4, seed);
        BeamSearchAgent::new(256, 4).play_game(&mut beam);
        assert!(beam.score() >= greedy.score());
    }
}

#[test]
fn greedy_scores_no_less_than_the_worst_of_a_hundred_random_games() {
    let mut greedy = GameState::new(3, 3, 4, 7);
    GreedyAgent::new().play_game(&mut greedy);
    let mut rng = StdRng::seed_from_u64(7);
    let mut worst = i32::MAX;
    for _ in 0..100 {
        let mut state = GameState::new(3, 3, 4, 7);
        RandomAgent::new(&mut rng).play_game(&mut state);
        worst = worst.min(state.score());
    }
    assert!(greedy.score() >= worst);
}

#[test]
fn score() {
    let mut rng = rand::thread_rng();
    let score = (0..100)
        .map(|_| {
            let mut state = GameState::new(3, 3, 4, rng.gen());
            BeamSearchAgent::new(2, 4).play_game(&mut state);
            state.score()
        })
        .sum::<i32>() as f64
        / 100.0;

    println!("Average score: {}", score);
}

#[test]
fn main_score() {
    let mut rng = rand::thread_rng();
    let score = (0..100)
        .map(|_| {
            let mut state = GameState::new(3, 3, 4, rng.gen());
            ChokudaiSearchAgent::new(2, 4, 2).play_game(&mut state);
            state.score()
        })
        .sum::<i32>() as f64
        / 100.0;

    println!("Average score: {}", score);
}

#[test]
fn narrow_beam_search_can_score_less_than_greedy() {
    let mut greedy = GameState::new(4, 4, 6, 183);
    GreedyAgent::new().play_game(&mut greedy);
    let mut narrow = GameState::new(4, 4, 6, 183);
    BeamSearchAgent::new(4, 6).play_game(&mut narrow);
    let mut wide = GameState::new(4, 4, 6, 183);
    BeamSearchAgent::new(4096, 6).play_game(&mut wide);
    assert_eq!(greedy.score(), 39);
    assert_eq!(narrow.score(), 38);
    assert!(wide.score() >= greedy.score());
}

#[test]
fn more_rounds_of_chokudai_search_never_find_less() {
    for seed in 0..20u64 {
        let state = GameState::new(4, 4, 3, seed);
        let mut last = 0;
        for count in [1usize, 2, 3, 5, 8, 40] {
            let chosen = ChokudaiSearchAgent::new(1, 3, count).choose_action(&state).unwrap();
            let found = best_reachable(&after(&state, chosen), 2);
            assert!(found >= state.score());
            if count == 40 {
                assert_eq!(found, best_reachable(&state, 3));
            }
            last = last.max(found);
        }
        assert_eq!(last, best_reachable(&state, 3));
    }
}

struct FirstAction {
    chosen: Vec<Action>,
}

impl Agent<GameState, Action> for FirstAction {
    fn ready(&self) -> bool {
        true
    }

    fn choose_action(&mut self, state: &GameState) -> Option<Action> {
        let action = state.valid_actions().first().copied();
        self.chosen.extend(action);
        action
    }
}

#[test]
fn play_game_of_any_agent_takes_its_choice_at_each_turn() {
    let mut played = GameState::new(3, 4, 5, 9);
    let mut stepped = played.clone();
    let mut agent = FirstAction { chosen: Vec::new() };
    agent.play_game(&mut played);
    assert_eq!(agent.chosen.len(), 5);
    for action in &agent.chosen {
        assert!(stepped.valid_actions().contains(action));
        stepped.advance(*action);
    }
    assert!(played.is_game_over());
    assert_eq!(played.score(), stepped.score());
    assert_eq!((played.y(), played.x()), (stepped.y(), stepped.x()));
}
