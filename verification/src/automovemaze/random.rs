//! The random strategy: scatter the movers over the board and let them go.

use crate::action::in_bounds;
use crate::automovemaze::{Agent, State};
use crate::rng::generator_state;
use rand::rngs::StdRng;
use vstd::prelude::*;

verus! {

/// Places the movers with a generator that it borrows.
pub struct RandomAgent<'a> {
    /// The generator that the agent draws from and hands back when it is done.
    pub rng: &'a mut StdRng,
}

impl<'a> RandomAgent<'a> {
    /// The state of the generator that the agent draws from.
    pub open spec fn source(&self) -> Seq<u8> {
        generator_state(*self.rng)
    }

    pub fn new(rng: &'a mut StdRng) -> (agent: Self)
        ensures
            agent.source() == generator_state(*old(rng)),
            *final(agent.rng) == *final(rng),
    {
        RandomAgent { rng }
    }
}

impl<'a> Agent for RandomAgent<'a> {
    open spec fn ready(&self) -> bool {
        true
    }

    /// Puts every mover on a cell drawn for it, in order, and plays the game to its end.
    fn play_game(&mut self, current_state: &State) -> (last: State)
        ensures
            last@ == current_state@.scattered(
                old(self).source(),
                current_state@.characters.len(),
            ).0.played_out(),
            final(self).source() == current_state@.scattered(
                old(self).source(),
                current_state@.characters.len(),
            ).1,
            last@.is_game_over(),
            *final(final(self).rng) == *final(old(self).rng),
    {
        let mut state = current_state.clone();
        let ghost start = current_state@;
        let ghost source = self.source();
        let n = state.num_characters();
        assert(in_bounds(start.h, start.w, start.characters[0]));
        let mut i: usize = 0;
        while i < n
            invariant
                i <= n,
                n == start.characters.len(),
                start.valid(),
                start.h > 0,
                start.w > 0,
                state.wf(),
                state@ == start.scattered(source, i as nat).0,
                self.source() == start.scattered(source, i as nat).1,
                *final(self.rng) == *final(old(self).rng),
                state@.same_game(start),
                state@.turn == start.turn,
                state@.score >= start.score,
            decreases n - i,
        {
            let (x, y) = state.draw_cell(self.rng);
            state.set_character_coord(i, x, y);
            i += 1;
        }
        state.play_out();
        state
    }
}

} // verus!
