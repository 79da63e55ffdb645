//! Simulated annealing: like hill climbing, but a neighbour that scores no more may be
//! taken up by chance, while the best state seen is kept aside.
//!
//! The chance depends on a temperature that falls from step to step. Computing it and
//! drawing with it is left to the caller, who asks for a neighbour, plays it out, draws
//! if `Annealing::needs_chance` says so, and hands neighbour and draw to
//! `Annealing::accept`.

use crate::automovemaze::{State, StateView};
use crate::rng::generator_state;
use rand::rngs::StdRng;
use vstd::prelude::*;

verus! {

/// The temperatures between which the search cools.
pub struct TemperatureRange {
    pub start: u32,
    pub end: u32,
}

/// The settings of a search: the number of steps and the temperature range.
pub struct SimulatedAnnealingAgent {
    count: u32,
    temp_range: TemperatureRange,
}

/// What an `Annealing` stands for.
pub struct AnnealingView {
    /// Steps to take in all.
    pub count: nat,
    /// Steps taken so far.
    pub step: nat,
    /// The state from which the next neighbour is drawn.
    pub state: StateView,
    /// The best state seen so far.
    pub best_state: StateView,
}

impl AnnealingView {
    /// The invariant of a search: both states are valid states of one game in which the
    /// movers can move, no more steps were taken than planned, and the best state
    /// scores at least as much as the current one.
    pub open spec fn valid(self) -> bool {
        &&& self.step <= self.count
        &&& self.state.valid()
        &&& self.best_state.valid()
        &&& self.best_state.same_game(self.state)
        &&& self.state.characters.len() > 0
        &&& self.state.can_move()
        &&& self.best_state.score >= self.state.score
    }

    /// How much more than the current state the neighbour scores.
    pub open spec fn delta(self, neighbor: StateView) -> int {
        neighbor.score - self.state.score
    }

    /// One step. The neighbour becomes the best state if it scores strictly more than
    /// the best so far. It becomes the current state if it scores strictly more than the
    /// current one, or else if `chance` allows.
    pub open spec fn accept(self, neighbor: StateView, chance: bool) -> AnnealingView {
        AnnealingView {
            count: self.count,
            step: self.step + 1,
            state: if self.delta(neighbor) > 0 || chance {
                neighbor
            } else {
                self.state
            },
            best_state: if self.best_state.score < neighbor.score {
                neighbor
            } else {
                self.best_state
            },
        }
    }
}

/// A step keeps the search valid: in particular the best state still scores at least
/// as much as the current one, and never less than it did.
pub proof fn lemma_accept(run: AnnealingView, neighbor: StateView, chance: bool)
    requires
        run.valid(),
        run.step < run.count,
        neighbor.valid(),
        neighbor.same_game(run.state),
    ensures
        run.accept(neighbor, chance).valid(),
        run.accept(neighbor, chance).best_state.score >= run.accept(neighbor, chance).state.score,
        run.accept(neighbor, chance).best_state.score >= run.best_state.score,
        run.accept(neighbor, chance).best_state.score >= neighbor.score,
{
}

/// A search under way: the current state, the best state seen, and the steps taken.
pub struct Annealing {
    count: u32,
    step: u32,
    state: State,
    best_state: State,
}

impl View for Annealing {
    type V = AnnealingView;

    closed spec fn view(&self) -> AnnealingView {
        AnnealingView {
            count: self.count as nat,
            step: self.step as nat,
            state: self.state@,
            best_state: self.best_state@,
        }
    }
}

impl SimulatedAnnealingAgent {
    pub closed spec fn spec_count(&self) -> nat {
        self.count as nat
    }

    pub closed spec fn spec_temp_start(&self) -> nat {
        self.temp_range.start as nat
    }

    pub closed spec fn spec_temp_end(&self) -> nat {
        self.temp_range.end as nat
    }

    pub fn new(count: u32, temp_start: u32, temp_end: u32) -> (agent: Self)
        ensures
            agent.spec_count() == count,
            agent.spec_temp_start() == temp_start,
            agent.spec_temp_end() == temp_end,
    {
        SimulatedAnnealingAgent {
            count,
            temp_range: TemperatureRange { start: temp_start, end: temp_end },
        }
    }

    /// The number of steps of a search.
    pub fn count(&self) -> (count: u32)
        ensures
            count == self.spec_count(),
    {
        self.count
    }

    /// The temperature at the first step.
    pub fn temp_start(&self) -> (temp: u32)
        ensures
            temp == self.spec_temp_start(),
    {
        self.temp_range.start
    }

    /// The temperature that the search cools towards.
    pub fn temp_end(&self) -> (temp: u32)
        ensures
            temp == self.spec_temp_end(),
    {
        self.temp_range.end
    }

    /// A copy of `state` in which one mover, drawn at random, has landed on a cell drawn
    /// at random.
    pub fn gen_neighbor(&self, rng: &mut StdRng, state: &State) -> (neighbor: State)
        requires
            state.wf(),
            state@.characters.len() > 0,
        ensures
            neighbor.wf(),
            neighbor@ == state@.relocated(generator_state(*old(rng))).0,
            generator_state(*final(rng)) == state@.relocated(generator_state(*old(rng))).1,
            neighbor@.same_game(state@),
            neighbor@.turn == state@.turn,
            neighbor@.score >= state@.score,
    {
        state.neighbor(rng)
    }

    /// Begins a search at `state`, which is both the current and the best state.
    pub fn begin(&self, state: &State) -> (run: Annealing)
        requires
            state.wf(),
            state@.characters.len() > 0,
            state@.can_move(),
        ensures
            run.wf(),
            run@ == (AnnealingView {
                count: self.spec_count(),
                step: 0,
                state: state@,
                best_state: state@,
            }),
    {
        Annealing { count: self.count, step: 0, state: state.clone(), best_state: state.clone() }
    }
}

impl Annealing {
    /// Both states are stored in the shape that their type asks for.
    pub closed spec fn shaped(&self) -> bool {
        self.state.shaped() && self.best_state.shaped()
    }

    /// The search is one that can be under way.
    pub open spec fn wf(&self) -> bool {
        self.shaped() && self@.valid()
    }

    /// Every step has been taken.
    pub fn is_finished(&self) -> (finished: bool)
        ensures
            finished == (self@.step >= self@.count),
    {
        self.step >= self.count
    }

    /// The number of steps taken so far.
    pub fn step(&self) -> (step: u32)
        ensures
            step == self@.step,
    {
        self.step
    }

    /// The state from which the next neighbour is drawn.
    pub fn state(&self) -> (state: &State)
        requires
            self.wf(),
        ensures
            state@ == self@.state,
            state.wf(),
    {
        &self.state
    }

    /// The best state seen so far.
    pub fn best_state(&self) -> (state: &State)
        requires
            self.wf(),
        ensures
            state@ == self@.best_state,
            state.wf(),
    {
        &self.best_state
    }

    /// How much more than the current state the neighbour scores.
    pub fn delta(&self, neighbor: &State) -> (delta: i32)
        requires
            self.wf(),
            neighbor.wf(),
        ensures
            delta == self@.delta(neighbor@),
    {
        neighbor.score() - self.state.score()
    }

    /// Whether taking up the neighbour is a matter of chance: it is where the neighbour
    /// does not score strictly more than the current state.
    pub fn needs_chance(&self, neighbor: &State) -> (needed: bool)
        requires
            self.wf(),
            neighbor.wf(),
        ensures
            needed == (self@.delta(neighbor@) <= 0),
    {
        neighbor.score() <= self.state.score()
    }

    /// Takes one step with a neighbour that was played to its end. `chance` is the
    /// outcome of the draw and counts only where `needs_chance` holds.
    pub fn accept(&mut self, neighbor: State, chance: bool)
        requires
            old(self).wf(),
            old(self)@.step < old(self)@.count,
            neighbor.wf(),
            neighbor@.same_game(old(self)@.state),
            neighbor@.can_move(),
        ensures
            final(self).wf(),
            final(self)@ == old(self)@.accept(neighbor@, chance),
            final(self)@.best_state.score >= final(self)@.state.score,
    {
        let delta = self.delta(&neighbor);
        if self.best_state.score() < neighbor.score() {
            self.best_state = neighbor.clone();
        }
        if delta > 0 || chance {
            self.state = neighbor;
        }
        self.step += 1;
    }

    /// Ends the search and hands out the best state seen.
    pub fn into_best(self) -> (best: State)
        requires
            self.wf(),
        ensures
            best.wf(),
            best@ == self@.best_state,
            best@.score >= self@.state.score,
    {
        self.best_state
    }
}

} // verus!
