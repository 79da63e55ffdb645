//! Hill climbing: try neighbouring states and keep each one that ends with a higher score.

use crate::automovemaze::{Agent, State, StateView};
use crate::rng::generator_state;
use rand::rngs::StdRng;
use vstd::prelude::*;

verus! {

/// The state that hill climbing holds after `trials` trials, and the state its generator
/// is left in. Each trial draws a neighbour of the state held, plays it to its end, and
/// keeps it if it scores strictly more.
pub open spec fn climbed(state: StateView, source: Seq<u8>, trials: nat) -> (StateView, Seq<u8>)
    decreases trials,
{
    if trials == 0 {
        (state, source)
    } else {
        let before = climbed(state, source, (trials - 1) as nat);
        let neighbor = before.0.relocated(before.1);
        let outcome = neighbor.0.played_out();
        if outcome.score > before.0.score {
            (outcome, neighbor.1)
        } else {
            (before.0, neighbor.1)
        }
    }
}

/// Tries `count` neighbouring states, drawn with a generator that it borrows.
pub struct HillClimbAgent<'a> {
    /// The generator that the agent draws from and hands back when it is done.
    pub rng: &'a mut StdRng,
    /// The number of trials.
    pub count: u32,
}

impl<'a> HillClimbAgent<'a> {
    /// The state of the generator that the agent draws from.
    pub open spec fn source(&self) -> Seq<u8> {
        generator_state(*self.rng)
    }

    /// The number of trials.
    pub open spec fn spec_count(&self) -> nat {
        self.count as nat
    }

    pub fn new(rng: &'a mut StdRng, count: u32) -> (agent: Self)
        ensures
            agent.source() == generator_state(*old(rng)),
            *final(agent.rng) == *final(rng),
            agent.spec_count() == count,
    {
        HillClimbAgent { rng, count }
    }

    /// A copy of `state` in which one mover, drawn at random, has landed on a cell drawn
    /// at random.
    pub fn generate_neighbor(&mut self, state: &State) -> (neighbor: State)
        requires
            state.wf(),
            state@.characters.len() > 0,
        ensures
            neighbor.wf(),
            neighbor@ == state@.relocated(old(self).source()).0,
            final(self).source() == state@.relocated(old(self).source()).1,
            final(self).spec_count() == old(self).spec_count(),
            *final(final(self).rng) == *final(old(self).rng),
            neighbor@.same_game(state@),
            neighbor@.turn == state@.turn,
            neighbor@.score >= state@.score,
    {
        state.neighbor(self.rng)
    }
}

impl<'a> Agent for HillClimbAgent<'a> {
    open spec fn ready(&self) -> bool {
        true
    }

    /// Returns the best state found: the given one, or the end of a game that scored
    /// more.
    fn play_game(&mut self, current_state: &State) -> (last: State)
        ensures
            last@ == climbed(current_state@, old(self).source(), old(self).spec_count()).0,
            final(self).source() == climbed(
                current_state@,
                old(self).source(),
                old(self).spec_count(),
            ).1,
            final(self).spec_count() == old(self).spec_count(),
            *final(final(self).rng) == *final(old(self).rng),
    {
        let mut state = current_state.clone();
        let ghost start = current_state@;
        let ghost source = self.source();
        let mut i: u32 = 0;
        while i < self.count
            invariant
                i <= self.count,
                self.spec_count() == old(self).spec_count(),
                *final(self.rng) == *final(old(self).rng),
                state.wf(),
                state@ == climbed(start, source, i as nat).0,
                self.source() == climbed(start, source, i as nat).1,
                state@.same_game(start),
                state@.characters.len() > 0,
                state@.can_move(),
                state@.score >= start.score,
                state@.turn >= start.turn,
            decreases self.count - i,
        {
            let mut neighbor = self.generate_neighbor(&state);
            neighbor.play_out();
            if neighbor.score() > state.score() {
                state = neighbor;
            }
            i += 1;
        }
        state
    }
}

} // verus!
