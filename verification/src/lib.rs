//! Turn-based collecting games on a grid, and strategies that play them: random choice,
//! greedy lookahead, hill climbing, simulated annealing, beam search and chokudai search.

use vstd::prelude::*;

pub mod action;
pub mod automovemaze;
pub mod board;
pub mod maze;
pub mod rng;

verus! {

/// A game that is played one action at a time until it is over.
pub trait GameStateBase<T> {
    /// The state is one that the game can be in.
    spec fn wf(&self) -> bool;

    /// No turn is left.
    spec fn spec_is_game_over(&self) -> bool;

    /// The actions that may be taken now, in the order in which they are tried.
    spec fn spec_valid_actions(&self) -> Seq<T>;

    /// The number of turns until the game is over.
    spec fn turns_left(&self) -> nat;

    /// The points collected so far.
    spec fn spec_score(&self) -> int;

    fn is_game_over(&self) -> (over: bool)
        ensures
            over == self.spec_is_game_over(),
            over <==> self.turns_left() == 0,
    ;

    fn valid_actions(&self) -> (actions: Vec<T>)
        requires
            self.wf(),
        ensures
            actions@ == self.spec_valid_actions(),
    ;

    /// Takes one turn. A game that offered an action before still offers one after, and
    /// the score never falls.
    fn advance(&mut self, action: T)
        requires
            old(self).wf(),
            !old(self).spec_is_game_over(),
            old(self).spec_valid_actions().contains(action),
        ensures
            final(self).wf(),
            final(self).turns_left() == old(self).turns_left() - 1,
            final(self).spec_valid_actions().len() > 0,
            final(self).spec_score() >= old(self).spec_score(),
    ;
}

/// A strategy that picks one action at a time.
pub trait Agent<T: GameStateBase<S>, S> {
    /// The agent is set up so that it finds an action wherever there is one.
    spec fn ready(&self) -> bool;

    /// Picks one of the actions that `state` offers, if the agent finds one. An agent that
    /// is ready finds one in every game that is not over and offers any.
    fn choose_action(&mut self, state: &T) -> (action: Option<S>)
        requires
            state.wf(),
        ensures
            final(self).ready() == old(self).ready(),
            action is Some ==> state.spec_valid_actions().contains(action->0),
            old(self).ready() && !state.spec_is_game_over() && state.spec_valid_actions().len()
                > 0 ==> action is Some,
    ;

    /// Plays `state` to its end, taking the action chosen at each turn.
    fn play_game(&mut self, state: &mut T)
        requires
            old(self).ready(),
            old(state).wf(),
            old(state).spec_is_game_over() || old(state).spec_valid_actions().len() > 0,
        ensures
            final(self).ready(),
            final(state).wf(),
            final(state).spec_is_game_over(),
            final(state).spec_score() >= old(state).spec_score(),
    {
        while !state.is_game_over()
            invariant
                self.ready(),
                state.wf(),
                state.spec_is_game_over() || state.spec_valid_actions().len() > 0,
                state.spec_score() >= old(state).spec_score(),
            decreases state.turns_left(),
        {
            let action = self.choose_action(state).unwrap();
            state.advance(action);
        }
    }
}

} // verus!
