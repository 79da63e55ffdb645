//! Beam search: a frontier of bounded width, pushed forward a bounded number of turns.

use crate::action::Action;
use crate::maze::frontier::{
    all_valid, kept_best, led_from, lemma_children, lemma_pushed_all, pushed_all, sorted,
    Candidate, CandidateView, Frontier,
};
use crate::maze::{GameState, GameStateView};
use crate::{Agent, GameStateBase};
use vstd::prelude::*;

verus! {

/// The frontier that holds the children of every candidate of `beam`, the children of
/// better candidates added first.
pub open spec fn next_generation(beam: Seq<CandidateView>) -> Seq<CandidateView>
    decreases beam.len(),
{
    if beam.len() == 0 {
        Seq::empty()
    } else {
        pushed_all(next_generation(beam.drop_last()), beam.last().children())
    }
}

/// The beam after `depth` generations. Each generation holds the best `width` children
/// of the one before; where a generation has no children at all, it stays.
pub open spec fn beam_after(root: CandidateView, width: nat, depth: nat) -> Seq<CandidateView>
    decreases depth,
{
    if depth == 0 {
        seq![root]
    } else {
        let before = beam_after(root, width, (depth - 1) as nat);
        let next = next_generation(before);
        if next.len() == 0 {
            before
        } else {
            kept_best(next, width)
        }
    }
}

/// The first action of the best candidate that beam search reaches from `state`.
pub open spec fn beam_choice(state: GameStateView, width: nat, depth: nat) -> Option<Action> {
    let beam = beam_after(CandidateView::root(state), width, depth);
    if beam.len() == 0 {
        None
    } else {
        beam[0].first_action
    }
}

/// The state after beam search has played `turns` turns, searching anew at each.
pub open spec fn beam_played(state: GameStateView, width: nat, depth: nat, turns: nat) -> GameStateView
    decreases turns,
{
    if turns == 0 {
        state
    } else {
        let before = beam_played(state, width, depth, (turns - 1) as nat);
        match beam_choice(before, width, depth) {
            Some(action) => before.advance(action),
            None => before,
        }
    }
}

/// The next generation of valid candidates is sorted and valid, and holds exactly the
/// children of the candidates of the beam.
pub proof fn lemma_next_generation(beam: Seq<CandidateView>)
    requires
        all_valid(beam),
    ensures
        sorted(next_generation(beam)),
        all_valid(next_generation(beam)),
        forall|e: CandidateView|
            next_generation(beam).contains(e) <==> exists|i: int|
                0 <= i < beam.len() && (#[trigger] beam[i]).children().contains(e),
        beam.len() == 1 ==> next_generation(beam).len() == beam[0].children().len(),
    decreases beam.len(),
{
    let next = next_generation(beam);
    if beam.len() > 0 {
        let front = beam.drop_last();
        assert forall|i: int| 0 <= i < front.len() implies (#[trigger] front[i]).state.valid() by {}
        lemma_next_generation(front);
        lemma_children(beam.last());
        lemma_pushed_all(next_generation(front), beam.last().children());
        assert forall|e: CandidateView| next.contains(e) <==> exists|i: int|
            0 <= i < beam.len() && (#[trigger] beam[i]).children().contains(e) by {
            if next.contains(e) {
                if next_generation(front).contains(e) {
                    let i = choose|i: int|
                        0 <= i < front.len() && (#[trigger] front[i]).children().contains(e);
                    assert(beam[i] == front[i]);
                }
            }
            if exists|i: int| 0 <= i < beam.len() && (#[trigger] beam[i]).children().contains(e) {
                let i = choose|i: int|
                    0 <= i < beam.len() && (#[trigger] beam[i]).children().contains(e);
                if i < front.len() {
                    assert(front[i] == beam[i]);
                    assert(next_generation(front).contains(e));
                }
            }
        }
    }
}

/// Once a generation has no children, the beam stays as it is.
pub proof fn lemma_beam_stalls(root: CandidateView, width: nat, reached: nat, depth: nat)
    requires
        reached <= depth,
        next_generation(beam_after(root, width, reached)).len() == 0,
    ensures
        beam_after(root, width, depth) == beam_after(root, width, reached),
    decreases depth,
{
    if depth > reached {
        lemma_beam_stalls(root, width, reached, (depth - 1) as nat);
    }
}

/// What the beam holds after any number of generations: valid candidates in order; the
/// root alone where nothing can be expanded; nothing where no width is allowed; and
/// otherwise at least one candidate, each of them led by an action that `state` offers.
pub proof fn lemma_beam_after(state: GameStateView, width: nat, depth: nat)
    requires
        state.valid(),
    ensures
        sorted(beam_after(CandidateView::root(state), width, depth)),
        all_valid(beam_after(CandidateView::root(state), width, depth)),
        depth == 0 || state.is_game_over() || state.valid_actions().len() == 0 ==> beam_after(
            CandidateView::root(state),
            width,
            depth,
        ) == seq![CandidateView::root(state)],
        depth > 0 && !state.is_game_over() && state.valid_actions().len() > 0 && width == 0
            ==> beam_after(CandidateView::root(state), width, depth).len() == 0,
        depth > 0 && !state.is_game_over() && state.valid_actions().len() > 0 && width > 0 ==> {
            &&& beam_after(CandidateView::root(state), width, depth).len() > 0
            &&& led_from(beam_after(CandidateView::root(state), width, depth), state)
        },
    decreases depth,
{
    let root = CandidateView::root(state);
    if depth > 0 {
        lemma_beam_after(state, width, (depth - 1) as nat);
        let before = beam_after(root, width, (depth - 1) as nat);
        let next = next_generation(before);
        lemma_next_generation(before);
        if state.is_game_over() || state.valid_actions().len() == 0 {
            assert(before == seq![root]);
        } else if depth == 1 {
            assert forall|i: int| 0 <= i < next.len() implies {
                &&& (#[trigger] next[i]).first_action is Some
                &&& state.valid_actions().contains(next[i].first_action->0)
                &&& next[i].state.valid_actions().len() > 0
            } by {
                assert(next.contains(next[i]));
            }
        } else if width > 0 {
            assert forall|i: int| 0 <= i < next.len() implies {
                &&& (#[trigger] next[i]).first_action is Some
                &&& state.valid_actions().contains(next[i].first_action->0)
                &&& next[i].state.valid_actions().len() > 0
            } by {
                assert(next.contains(next[i]));
                let p = choose|p: int|
                    0 <= p < before.len() && (#[trigger] before[p]).children().contains(next[i]);
                let k = choose|k: int|
                    0 <= k < before[p].children().len() && before[p].children()[k] == next[i];
                assert(before[p].children()[k] == before[p].child(
                    before[p].state.valid_actions()[k],
                ));
            }
        }
    }
}

/// Beam search names an action exactly where it has something to search and room to
/// keep it, and the action it names is one that the state offers.
pub proof fn lemma_beam_choice(state: GameStateView, width: nat, depth: nat)
    requires
        state.valid(),
    ensures
        beam_choice(state, width, depth) is Some <==> depth > 0 && width > 0
            && !state.is_game_over() && state.valid_actions().len() > 0,
        beam_choice(state, width, depth) is Some ==> state.valid_actions().contains(
            beam_choice(state, width, depth)->0,
        ),
{
    lemma_beam_after(state, width, depth);
}

/// Searches `beam_depth` turns ahead and keeps the best `beam_width` candidates of each
/// generation.
pub struct BeamSearchAgent {
    beam_width: usize,
    beam_depth: usize,
}

impl BeamSearchAgent {
    pub closed spec fn spec_width(&self) -> nat {
        self.beam_width as nat
    }

    pub closed spec fn spec_depth(&self) -> nat {
        self.beam_depth as nat
    }

    pub fn new(beam_width: usize, beam_depth: usize) -> (agent: Self)
        ensures
            agent.spec_width() == beam_width,
            agent.spec_depth() == beam_depth,
    {
        BeamSearchAgent { beam_width, beam_depth }
    }
}

impl Agent<GameState, Action> for BeamSearchAgent {
    /// The search has room to keep a candidate and looks at least one turn ahead.
    open spec fn ready(&self) -> bool {
        self.spec_width() > 0 && self.spec_depth() > 0
    }

    /// The first action on the way to the best state that the search reaches; `None`
    /// where the game is over, the state offers no action, or width or depth is zero.
    fn choose_action(&mut self, state: &GameState) -> (action: Option<Action>)
        ensures
            action == beam_choice(state@, old(self).spec_width(), old(self).spec_depth()),
            action is Some <==> old(self).spec_depth() > 0 && old(self).spec_width() > 0
                && !state@.is_game_over() && state@.valid_actions().len() > 0,
            final(self).spec_width() == old(self).spec_width(),
            final(self).spec_depth() == old(self).spec_depth(),
    {
        let ghost root = CandidateView::root(state@);
        let ghost width = self.beam_width as nat;
        let mut beam = Frontier::new();
        beam.push(Candidate { state: state.clone(), first_action: None });
        let mut generation: usize = 0;
        while generation < self.beam_depth
            invariant
                generation <= self.beam_depth,
                width == self.beam_width,
                beam.wf(),
                beam@ == beam_after(root, width, generation as nat),
            ensures
                beam.wf(),
                beam@ == beam_after(root, width, self.beam_depth as nat),
            decreases self.beam_depth - generation,
        {
            let mut next = Frontier::new();
            let mut i: usize = 0;
            while i < beam.len()
                invariant
                    i <= beam@.len(),
                    beam.wf(),
                    next.wf(),
                    next@ == next_generation(beam@.take(i as int)),
                decreases beam@.len() - i,
            {
                assert(beam@.take(i + 1).drop_last() =~= beam@.take(i as int));
                next.expand(beam.get(i));
                i += 1;
            }
            assert(beam@.take(i as int) =~= beam@);
            if next.is_empty() {
                proof {
                    lemma_beam_stalls(root, width, generation as nat, self.beam_depth as nat);
                }
                break ;
            }
            next.truncate(self.beam_width);
            beam = next;
            generation += 1;
        }
        proof {
            lemma_beam_choice(state@, width, self.beam_depth as nat);
        }
        match beam.pop() {
            Some(best) => best.first_action,
            None => None,
        }
    }

    /// Plays `state` to its end, taking at each turn the action that a new search names.
    fn play_game(&mut self, state: &mut GameState)
        ensures
            final(state)@ == beam_played(
                old(state)@,
                old(self).spec_width(),
                old(self).spec_depth(),
                old(state)@.turns_left(),
            ),
            final(self).spec_width() == old(self).spec_width(),
            final(self).spec_depth() == old(self).spec_depth(),
    {
        let ghost start = state@;
        let ghost turns: nat = 0;
        while !state.is_game_over()
            invariant
                self.ready(),
                self.spec_width() == old(self).spec_width(),
                self.spec_depth() == old(self).spec_depth(),
                state.wf(),
                state@.is_game_over() || state@.valid_actions().len() > 0,
                state@ == beam_played(start, self.spec_width(), self.spec_depth(), turns),
                state@.turns_left() + turns == start.turns_left(),
                state@.score >= start.score,
            decreases state@.turns_left(),
        {
            let action = self.choose_action(state).unwrap();
            state.advance(action);
            proof {
                turns = turns + 1;
            }
        }
    }
}

} // verus!
