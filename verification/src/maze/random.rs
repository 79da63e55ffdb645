//! The random strategy: take any valid action.

use crate::action::Action;
use crate::maze::{GameState, GameStateView};
use crate::rng::{gen_index, generator_state, index_draw};
use crate::{Agent, GameStateBase};
use rand::rngs::StdRng;
use vstd::prelude::*;

verus! {

/// The action that a generator in state `source` picks among those that `state` offers,
/// and the state it is left in. Where no action is offered nothing is drawn.
pub open spec fn random_choice(state: GameStateView, source: Seq<u8>) -> (Option<Action>, Seq<u8>) {
    let actions = state.valid_actions();
    if actions.len() == 0 {
        (None, source)
    } else {
        let draw = index_draw(source, 0, actions.len() as int, usize::BITS as int);
        (Some(actions[draw.0]), draw.1)
    }
}

/// The state after `turns` turns of random play with a generator that starts in state
/// `source`, and the state the generator is left in.
pub open spec fn random_played(state: GameStateView, source: Seq<u8>, turns: nat) -> (
    GameStateView,
    Seq<u8>,
)
    decreases turns,
{
    if turns == 0 {
        (state, source)
    } else {
        let before = random_played(state, source, (turns - 1) as nat);
        let choice = random_choice(before.0, before.1);
        match choice.0 {
            Some(action) => (before.0.advance(action), choice.1),
            None => (before.0, choice.1),
        }
    }
}

/// Picks actions with a generator that it borrows.
pub struct RandomAgent<'a> {
    /// The generator that the agent draws from and hands back when it is done.
    pub rng: &'a mut StdRng,
}

impl<'a> RandomAgent<'a> {
    /// The state of the generator that the agent draws from.
    pub open spec fn source(&self) -> Seq<u8> {
        generator_state(*self.rng)
    }

    pub fn new(rng: &'a mut StdRng) -> (agent: Self)
        ensures
            agent.source() == generator_state(*old(rng)),
            *final(agent.rng) == *final(rng),
    {
        RandomAgent { rng }
    }
}

impl<'a> Agent<GameState, Action> for RandomAgent<'a> {
    open spec fn ready(&self) -> bool {
        true
    }

    /// Draws one of the valid actions, each with the same chance.
    fn choose_action(&mut self, state: &GameState) -> (action: Option<Action>)
        ensures
            action == random_choice(state@, old(self).source()).0,
            final(self).source() == random_choice(state@, old(self).source()).1,
            *final(final(self).rng) == *final(old(self).rng),
    {
        let actions = state.valid_actions();
        if actions.len() == 0 {
            return None;
        }
        let drawn = gen_index(self.rng, 0, actions.len());
        Some(actions[drawn])
    }

    /// Plays `state` to its end, drawing an action at each turn.
    fn play_game(&mut self, state: &mut GameState)
        ensures
            final(state)@ == random_played(
                old(state)@,
                old(self).source(),
                old(state)@.turns_left(),
            ).0,
            final(self).source() == random_played(
                old(state)@,
                old(self).source(),
                old(state)@.turns_left(),
            ).1,
            *final(final(self).rng) == *final(old(self).rng),
    {
        let ghost start = state@;
        let ghost source = self.source();
        let ghost turns: nat = 0;
        while !state.is_game_over()
            invariant
                state.wf(),
                state@.is_game_over() || state@.valid_actions().len() > 0,
                state@ == random_played(start, source, turns).0,
                self.source() == random_played(start, source, turns).1,
                *final(self.rng) == *final(old(self).rng),
                state@.turns_left() + turns == start.turns_left(),
                state@.score >= start.score,
            decreases state@.turns_left(),
        {
            let action = self.choose_action(state).unwrap();
            state.advance(action);
            proof {
                turns = turns + 1;
            }
        }
    }
}

} // verus!
