//! The greedy strategy: take the action that scores most at once.

use crate::action::{last_best, lemma_last_best, Action};
use crate::maze::{GameState, GameStateView};
use crate::{Agent, GameStateBase};
use vstd::prelude::*;

verus! {

/// The score after each valid action, in the order of the actions.
pub open spec fn outcomes(state: GameStateView) -> Seq<int> {
    Seq::new(
        state.valid_actions().len(),
        |k: int| state.advance(state.valid_actions()[k]).score,
    )
}

/// The valid action after which the score is highest; of several such, the last. There
/// is none where the game is over or no action is offered.
pub open spec fn greedy_choice(state: GameStateView) -> Option<Action> {
    if state.is_game_over() || state.valid_actions().len() == 0 {
        None
    } else {
        Some(state.valid_actions()[last_best(outcomes(state))])
    }
}

/// The state after the greedy strategy has played `turns` turns.
pub open spec fn greedy_played(state: GameStateView, turns: nat) -> GameStateView
    decreases turns,
{
    if turns == 0 {
        state
    } else {
        let before = greedy_played(state, (turns - 1) as nat);
        match greedy_choice(before) {
            Some(action) => before.advance(action),
            None => before,
        }
    }
}

/// The greedy choice is a valid action, and no valid action scores more at once.
pub proof fn lemma_greedy_choice(state: GameStateView)
    requires
        greedy_choice(state) is Some,
    ensures
        state.valid_actions().contains(greedy_choice(state)->0),
        forall|a: Action|
            state.valid_actions().contains(a) ==> (#[trigger] state.advance(a)).score
                <= state.advance(greedy_choice(state)->0).score,
        forall|k: int|
            last_best(outcomes(state)) < k < state.valid_actions().len() ==> (#[trigger] state.advance(
                state.valid_actions()[k],
            )).score < state.advance(greedy_choice(state)->0).score,
{
    let actions = state.valid_actions();
    let scores = outcomes(state);
    lemma_last_best(scores);
    let best = last_best(scores);
    assert forall|a: Action| actions.contains(a) implies (#[trigger] state.advance(a)).score
        <= state.advance(greedy_choice(state)->0).score by {
        let k = choose|k: int| 0 <= k < actions.len() && actions[k] == a;
        assert(scores[k] <= scores[best]);
    }
    assert forall|k: int| best < k < actions.len() implies (#[trigger] state.advance(
        actions[k],
    )).score < state.advance(greedy_choice(state)->0).score by {
        assert(scores[k] < scores[best]);
    }
}

/// Looks one turn ahead.
pub struct GreedyAgent {}

impl GreedyAgent {
    pub fn new() -> (agent: Self) {
        GreedyAgent {  }
    }
}

impl Agent<GameState, Action> for GreedyAgent {
    open spec fn ready(&self) -> bool {
        true
    }

    /// Tries every valid action on a copy of the state and names the one that scores
    /// most; of several such, the last.
    fn choose_action(&mut self, state: &GameState) -> (action: Option<Action>)
        ensures
            action == greedy_choice(state@),
    {
        if state.is_game_over() {
            return None;
        }
        let actions = state.valid_actions();
        if actions.len() == 0 {
            return None;
        }
        let ghost scores = outcomes(state@);
        let mut best: usize = 0;
        let mut best_score: i32 = 0;
        let mut k: usize = 0;
        while k < actions.len()
            invariant
                k <= actions@.len(),
                state.wf(),
                !state@.is_game_over(),
                actions@ == state@.valid_actions(),
                scores == outcomes(state@),
                k == 0 ==> best == 0,
                k > 0 ==> best == last_best(scores.take(k as int)) && 0 <= best < k && best_score
                    == scores[best as int],
            decreases actions@.len() - k,
        {
            let mut next_state = state.clone();
            next_state.advance(actions[k]);
            let score = next_state.score();
            assert(scores.take(k + 1).drop_last() =~= scores.take(k as int));
            if k == 0 || score >= best_score {
                best = k;
                best_score = score;
            }
            k += 1;
        }
        assert(scores.take(k as int) =~= scores);
        Some(actions[best])
    }

    /// Plays `state` to its end, taking the greedy action at each turn.
    fn play_game(&mut self, state: &mut GameState)
        ensures
            final(state)@ == greedy_played(old(state)@, old(state)@.turns_left()),
    {
        let ghost start = state@;
        let ghost turns: nat = 0;
        while !state.is_game_over()
            invariant
                state.wf(),
                state@.is_game_over() || state@.valid_actions().len() > 0,
                state@ == greedy_played(start, turns),
                state@.turns_left() + turns == start.turns_left(),
                state@.score >= start.score,
            decreases state@.turns_left(),
        {
            let action = self.choose_action(state).unwrap();
            state.advance(action);
            proof {
                turns = turns + 1;
            }
        }
    }
}

} // verus!
