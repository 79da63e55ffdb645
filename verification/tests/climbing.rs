use game_search::automovemaze::hillclimb::HillClimbAgent;
use game_search::automovemaze::random::RandomAgent;
use game_search::automovemaze::simulated_annealing::SimulatedAnnealingAgent;
use game_search::automovemaze::{Agent, State};
use rand::rngs::StdRng;
use rand::{Rng, SeedableRng};

fn anneal(rng: &mut StdRng, state: &State, count: u32, temp_start: u32, temp_end: u32) -> (State, i32) {
    let agent = SimulatedAnnealingAgent::new(count, temp_start, temp_end);
    let mut run = agent.begin(state);
    while !run.is_finished() {
        let mut neighbor = agent.gen_neighbor(rng, run.state());
        neighbor.play_out();
        let delta = run.delta(&neighbor);
        let temp = agent.temp_start() as f64
            + (agent.temp_end() as f64 - agent.temp_start() as f64)
                * (run.step() as f64 / agent.count() as f64);
        let prob = (delta as f64 / temp).exp();
        let chance = run.needs_chance(&neighbor) && rng.gen_bool(prob.min(1.0));
        run.accept(neighbor, chance);
        assert!(run.best_state().score() >= run.state().score());
    }
    let current = run.state().score();
    (run.into_best(), current)
}

#[test]
fn random_agent_scatters_the_movers_and_plays_out() {
    let state = State::new(3, 5, 5, 3, 5);
    let mut rng = StdRng::seed_from_u64(10);
    let last = RandomAgent::new(&mut rng).play_game(&state);
    let mut expected_rng = StdRng::seed_from_u64(10);
    let mut expected = state.clone();
    for i in 0..3 {
        let x: usize = expected_rng.gen_range(0..5);
        let y: usize = expected_rng.gen_range(0..5);
        expected.set_character_coord(i, x, y);
    }
    expected.play_out();
    assert!(last.is_game_over());
    assert_eq!(last.turn(), 5);
    assert_eq!(last.score(), expected.score());
    assert_eq!(state.turn(), 0);
    assert_eq!(state.score(), 0);
}

#[test]
fn generate_neighbor_relocates_one_mover() {
    let state = State::new(3, 5, 5, 3, 5);
    let mut rng = StdRng::seed_from_u64(4);
    let mut expected_rng = StdRng::seed_from_u64(4);
    let neighbor = HillClimbAgent::new(&mut rng, 1).generate_neighbor(&state);
    let expected = state.neighbor(&mut expected_rng);
    assert_eq!(neighbor.score(), expected.score());
    let moved = neighbor
        .characters()
        .iter()
        .filter(|c| (c.y(), c.x()) != (0, 0))
        .count();
    assert!(moved <= 1);
    assert_eq!(neighbor.turn(), 0);
}

#[test]
fn hill_climbing_without_trials_returns_the_state_given() {
    let state = State::new(3, 5, 5, 3, 5);
    let mut rng = StdRng::seed_from_u64(4);
    let last = HillClimbAgent::new(&mut rng, 0).play_game(&state);
    assert_eq!(last.turn(), 0);
    assert_eq!(last.score(), 0);
}

#[test]
fn hill_climbing_keeps_the_best_of_its_trials() {
    let state = State::new(12, 5, 5, 3, 5);
    let mut rng = StdRng::seed_from_u64(77);
    let last = HillClimbAgent::new(&mut rng, 50).play_game(&state);
    let mut expected_rng = StdRng::seed_from_u64(77);
    let mut best = state.clone();
    for _ in 0..50 {
        let mut neighbor = best.neighbor(&mut expected_rng);
        neighbor.play_out();
        if neighbor.score() > best.score() {
            best = neighbor;
        }
    }
    assert_eq!(last.score(), best.score());
    assert_eq!(last.turn(), best.turn());
}

#[test]
fn hill_climbing_scores_no_less_than_its_first_trial() {
    let state = State::new(2023, 5, 5, 3, 5);
    let mut rng = StdRng::seed_from_u64(2023);
    let last = HillClimbAgent::new(&mut rng, 10000).play_game(&state);
    let mut first_rng = StdRng::seed_from_u64(2023);
    let mut first = state.neighbor(&mut first_rng);
    first.play_out();
    assert!(last.score() >= first.score());
    assert!(last.is_game_over());
}

#[test]
fn annealing_returns_a_best_state_no_worse_than_its_current_one() {
    for seed in 0..5u64 {
        let state = State::new(seed, 5, 5, 3, 5);
        let mut rng = StdRng::seed_from_u64(seed);
        let (best, current) = anneal(&mut rng, &state, 300, 500, 10);
        assert!(best.score() >= current);
        assert!(best.score() >= state.score());
    }
}

#[test]
fn annealing_step_follows_score_and_chance() {
    let state = State::new(5, 5, 5, 3, 5);
    let agent = SimulatedAnnealingAgent::new(3, 500, 10);
    assert_eq!(agent.count(), 3);
    assert_eq!(agent.temp_start(), 500);
    assert_eq!(agent.temp_end(), 10);
    let mut run = agent.begin(&state);
    assert_eq!(run.step(), 0);
    assert!(!run.is_finished());

    let mut better = state.clone();
    better.play_out();
    assert!(better.score() > 0);
    assert_eq!(run.delta(&better), better.score());
    assert!(!run.needs_chance(&better));
    run.accept(better.clone(), false);
    assert_eq!(run.state().score(), better.score());
    assert_eq!(run.best_state().score(), better.score());

    assert_eq!(run.delta(&state), -better.score());
    assert!(run.needs_chance(&state));
    run.accept(state.clone(), false);
    assert_eq!(run.state().score(), better.score());
    assert_eq!(run.best_state().score(), better.score());

    run.accept(state.clone(), true);
    assert_eq!(run.state().score(), 0);
    assert_eq!(run.best_state().score(), better.score());
    assert_eq!(run.step(), 3);
    assert!(run.is_finished());
    assert_eq!(run.into_best().score(), better.score());
}

#[test]
fn hillclimb_score() {
    let mut rng = StdRng::seed_from_u64(rand::thread_rng().gen());
    let score = (0..100)
        .map(|_| {
            let initial_state = State::new(rng.gen(), 5, 5, 3, 5);
            let last_state = HillClimbAgent::new(&mut rng, 10000).play_game(&initial_state);

            last_state.score()
        })
        .sum::<i32>() as f64
        / 100.0;
    println!("Average score: {}", score);
}

#[test]
fn random_score() {
    let mut rng = StdRng::seed_from_u64(rand::thread_rng().gen());
    let score = (0..100)
        .map(|_| {
            let initial_state = State::new(rng.gen(), 5, 5, 3, 5);
            let last_state = RandomAgent::new(&mut rng).play_game(&initial_state);

            last_state.score()
        })
        .sum::<i32>() as f64
        / 100.0;
    println!("Average score: {}", score);
}
