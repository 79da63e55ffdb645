//! Chokudai search: one frontier for each depth, widened a little in every round.

use crate::action::Action;
use crate::maze::frontier::{
    all_valid, led_from, lemma_children, lemma_pushed_all, pushed_all, sorted, Candidate,
    CandidateView, Frontier,
};
use crate::maze::{GameState, GameStateView};
use crate::{Agent, GameStateBase};
use vstd::prelude::*;

verus! {

/// The frontiers at the start of a search: the root at depth 0, nothing below.
pub open spec fn initial_levels(root: CandidateView, depth: nat) -> Seq<Seq<CandidateView>> {
    Seq::new(
        depth + 1,
        |t: int|
            if t == 0 {
                seq![root]
            } else {
                Seq::empty()
            },
    )
}

/// The best candidate of depth `t` leaves its frontier and its children join the one
/// below.
pub open spec fn expand_best(levels: Seq<Seq<CandidateView>>, t: int) -> Seq<
    Seq<CandidateView>,
> {
    levels.update(t, levels[t].skip(1)).update(
        t + 1,
        pushed_all(levels[t + 1], levels[t][0].children()),
    )
}

/// Up to `budget` times the best candidate of depth `t` is expanded. This stops early
/// where the frontier runs empty or its best candidate is a finished game.
pub open spec fn expand_level(levels: Seq<Seq<CandidateView>>, t: int, budget: nat) -> Seq<
    Seq<CandidateView>,
>
    decreases budget,
{
    if budget == 0 || levels[t].len() == 0 || levels[t][0].state.is_game_over() {
        levels
    } else {
        expand_level(expand_best(levels, t), t, (budget - 1) as nat)
    }
}

/// The depths from `from` up to but excluding `depth` are expanded in turn, each with a
/// budget of `width`.
pub open spec fn sweep(levels: Seq<Seq<CandidateView>>, from: nat, depth: nat, width: nat) -> Seq<
    Seq<CandidateView>,
>
    decreases depth - from,
{
    if from >= depth {
        levels
    } else {
        sweep(expand_level(levels, from as int, width), from + 1, depth, width)
    }
}

/// The frontiers after `count` rounds, each a sweep over all depths.
pub open spec fn rounds(levels: Seq<Seq<CandidateView>>, depth: nat, width: nat, count: nat) -> Seq<
    Seq<CandidateView>,
>
    decreases count,
{
    if count == 0 {
        levels
    } else {
        sweep(rounds(levels, depth, width, (count - 1) as nat), 0, depth, width)
    }
}

/// The best candidate of the deepest frontier that holds one.
pub open spec fn deepest_best(levels: Seq<Seq<CandidateView>>) -> Option<CandidateView>
    decreases levels.len(),
{
    if levels.len() == 0 {
        None
    } else if levels.last().len() > 0 {
        Some(levels.last()[0])
    } else {
        deepest_best(levels.drop_last())
    }
}

/// The frontiers that chokudai search ends with.
pub open spec fn chokudai_levels(state: GameStateView, width: nat, depth: nat, count: nat) -> Seq<
    Seq<CandidateView>,
> {
    rounds(initial_levels(CandidateView::root(state), depth), depth, width, count)
}

/// The first action of the best candidate that chokudai search reaches from `state`.
pub open spec fn chokudai_choice(state: GameStateView, width: nat, depth: nat, count: nat) -> Option<
    Action,
> {
    match deepest_best(chokudai_levels(state, width, depth, count)) {
        Some(best) => best.first_action,
        None => None,
    }
}

/// The state after chokudai search has played `turns` turns, searching anew at each.
pub open spec fn chokudai_played(
    state: GameStateView,
    width: nat,
    depth: nat,
    count: nat,
    turns: nat,
) -> GameStateView
    decreases turns,
{
    if turns == 0 {
        state
    } else {
        let before = chokudai_played(state, width, depth, count, (turns - 1) as nat);
        match chokudai_choice(before, width, depth, count) {
            Some(action) => before.advance(action),
            None => before,
        }
    }
}

/// What holds of the frontiers throughout a search from `state`: there is one for each
/// depth, each sorted and holding valid states; the first holds nothing but the root;
/// and every candidate below is led by an action that `state` offers and can move on.
pub open spec fn searching(levels: Seq<Seq<CandidateView>>, state: GameStateView, depth: nat) -> bool {
    &&& levels.len() == depth + 1
    &&& forall|t: int| 0 <= t <= depth ==> sorted(#[trigger] levels[t]) && all_valid(levels[t])
    &&& forall|i: int| 0 <= i < levels[0].len() ==> #[trigger] levels[0][i] == CandidateView::root(state)
    &&& forall|t: int| 1 <= t <= depth ==> led_from(#[trigger] levels[t], state)
}

/// Some frontier below the root holds a candidate.
pub open spec fn filled(levels: Seq<Seq<CandidateView>>) -> bool {
    exists|t: int| 1 <= t < levels.len() && (#[trigger] levels[t]).len() > 0
}

/// The search can leave `state`: the game is not over and an action is offered.
pub open spec fn expandable(state: GameStateView) -> bool {
    !state.is_game_over() && state.valid_actions().len() > 0
}

/// Expanding the best candidate of a depth keeps what holds throughout a search. Where
/// the search can leave the root, the frontier below receives a candidate; where it
/// cannot and nothing lies below the root yet, nothing does afterwards.
pub proof fn lemma_expand_best(
    levels: Seq<Seq<CandidateView>>,
    state: GameStateView,
    depth: nat,
    t: int,
)
    requires
        state.valid(),
        searching(levels, state, depth),
        0 <= t < depth,
        levels[t].len() > 0,
        !levels[t][0].state.is_game_over(),
    ensures
        searching(expand_best(levels, t), state, depth),
        expandable(state) ==> expand_best(levels, t)[t + 1].len() > 0,
        expandable(state) ==> filled(expand_best(levels, t)),
        !expandable(state) && !filled(levels) ==> !filled(expand_best(levels, t)),
{
    let best = levels[t][0];
    let below = pushed_all(levels[t + 1], best.children());
    assert(sorted(levels[t]) && all_valid(levels[t]));
    lemma_children(best);
    lemma_pushed_all(levels[t + 1], best.children());
    if t == 0 {
        assert(best == CandidateView::root(state));
    } else {
        assert(led_from(levels[t], state));
    }
    assert(led_from(below, state)) by {
        assert forall|i: int| 0 <= i < below.len() implies {
            &&& (#[trigger] below[i]).first_action is Some
            &&& state.valid_actions().contains(below[i].first_action->0)
            &&& below[i].state.valid_actions().len() > 0
        } by {
            let lower = levels[t + 1];
            if lower.contains(below[i]) {
                let k = choose|k: int| 0 <= k < lower.len() && lower[k] == below[i];
                assert(lower[k] == below[i]);
            }
        }
    }
}

/// Expanding a depth keeps what holds throughout a search. Where the search can leave
/// the root, a frontier below it that held a candidate leaves one below, and so does
/// any expansion that takes place; where it cannot, nothing comes to lie below the root.
pub proof fn lemma_expand_level(
    levels: Seq<Seq<CandidateView>>,
    state: GameStateView,
    depth: nat,
    t: int,
    budget: nat,
)
    requires
        state.valid(),
        searching(levels, state, depth),
        0 <= t < depth,
    ensures
        searching(expand_level(levels, t, budget), state, depth),
        expandable(state) && filled(levels) ==> filled(expand_level(levels, t, budget)),
        expandable(state) && budget > 0 && levels[t].len() > 0
            && !levels[t][0].state.is_game_over() ==> filled(expand_level(levels, t, budget)),
        !expandable(state) && !filled(levels) ==> !filled(expand_level(levels, t, budget)),
        budget == 0 ==> expand_level(levels, t, budget) == levels,
    decreases budget,
{
    if budget > 0 && levels[t].len() > 0 && !levels[t][0].state.is_game_over() {
        lemma_expand_best(levels, state, depth, t);
        lemma_expand_level(expand_best(levels, t), state, depth, t, (budget - 1) as nat);
    }
}

/// A sweep keeps what holds throughout a search, with the same consequences for the
/// frontiers below the root as the expansion of a single depth.
pub proof fn lemma_sweep(
    levels: Seq<Seq<CandidateView>>,
    state: GameStateView,
    from: nat,
    depth: nat,
    width: nat,
)
    requires
        state.valid(),
        searching(levels, state, depth),
    ensures
        searching(sweep(levels, from, depth, width), state, depth),
        expandable(state) && filled(levels) ==> filled(sweep(levels, from, depth, width)),
        expandable(state) && width > 0 && from < depth && levels[from as int].len() > 0
            && !levels[from as int][0].state.is_game_over() ==> filled(
            sweep(levels, from, depth, width),
        ),
        !expandable(state) && !filled(levels) ==> !filled(sweep(levels, from, depth, width)),
        width == 0 ==> sweep(levels, from, depth, width) == levels,
    decreases depth - from,
{
    if from < depth {
        lemma_expand_level(levels, state, depth, from as int, width);
        lemma_sweep(expand_level(levels, from as int, width), state, from + 1, depth, width);
    }
}

/// Any number of rounds keeps what holds throughout a search. A frontier below the root
/// holds a candidate afterwards exactly where the search can leave the root, has room to
/// expand it, and runs at least one round over at least one depth.
pub proof fn lemma_rounds(state: GameStateView, width: nat, depth: nat, count: nat)
    requires
        state.valid(),
    ensures
        searching(chokudai_levels(state, width, depth, count), state, depth),
        filled(chokudai_levels(state, width, depth, count)) <==> expandable(state) && width > 0
            && depth > 0 && count > 0,
    decreases count,
{
    let root = CandidateView::root(state);
    let start = initial_levels(root, depth);
    if count > 0 {
        lemma_rounds(state, width, depth, (count - 1) as nat);
        let before = rounds(start, depth, width, (count - 1) as nat);
        lemma_sweep(before, state, 0, depth, width);
    }
}

/// The deepest frontier that holds a candidate gives the best; there is none exactly
/// where every frontier is empty.
pub proof fn lemma_deepest_best(levels: Seq<Seq<CandidateView>>)
    ensures
        match deepest_best(levels) {
            Some(best) => exists|t: int|
                {
                    &&& 0 <= t < levels.len()
                    &&& (#[trigger] levels[t]).len() > 0
                    &&& best == levels[t][0]
                    &&& forall|u: int| t < u < levels.len() ==> (#[trigger] levels[u]).len() == 0
                },
            None => forall|t: int| 0 <= t < levels.len() ==> (#[trigger] levels[t]).len() == 0,
        },
    decreases levels.len(),
{
    if levels.len() > 0 && levels.last().len() == 0 {
        let front = levels.drop_last();
        lemma_deepest_best(front);
        match deepest_best(front) {
            Some(best) => {
                let t = choose|t: int|
                    {
                        &&& 0 <= t < front.len()
                        &&& (#[trigger] front[t]).len() > 0
                        &&& best == front[t][0]
                        &&& forall|u: int| t < u < front.len() ==> (#[trigger] front[u]).len() == 0
                    };
                assert forall|u: int| t < u < levels.len() implies (#[trigger] levels[u]).len()
                    == 0 by {
                    if u < front.len() {
                        assert(front[u] == levels[u]);
                    }
                }
            },
            None => {
                assert forall|t: int| 0 <= t < levels.len() implies (#[trigger] levels[t]).len()
                    == 0 by {
                    if t < front.len() {
                        assert(front[t] == levels[t]);
                    }
                }
            },
        }
    }
}

/// Chokudai search names an action exactly where it has something to search and the
/// room and the rounds to do so, and the action it names is one that the state offers.
pub proof fn lemma_chokudai_choice(state: GameStateView, width: nat, depth: nat, count: nat)
    requires
        state.valid(),
    ensures
        chokudai_choice(state, width, depth, count) is Some <==> expandable(state) && width > 0
            && depth > 0 && count > 0,
        chokudai_choice(state, width, depth, count) is Some ==> state.valid_actions().contains(
            chokudai_choice(state, width, depth, count)->0,
        ),
{
    let levels = chokudai_levels(state, width, depth, count);
    lemma_rounds(state, width, depth, count);
    lemma_deepest_best(levels);
}

/// Searches `beam_depth` turns ahead in `beam_count` rounds, each of which expands up to
/// `beam_width` candidates of every depth.
pub struct ChokudaiSearchAgent {
    beam_width: usize,
    beam_depth: usize,
    beam_count: usize,
}

/// What the frontiers of a search hold, by depth.
pub open spec fn levels_view(levels: Seq<Frontier>) -> Seq<Seq<CandidateView>> {
    Seq::new(levels.len(), |t: int| levels[t]@)
}

/// Every frontier is well formed.
pub open spec fn levels_wf(levels: Seq<Frontier>) -> bool {
    forall|t: int| 0 <= t < levels.len() ==> (#[trigger] levels[t]).wf()
}

impl ChokudaiSearchAgent {
    pub closed spec fn spec_width(&self) -> nat {
        self.beam_width as nat
    }

    pub closed spec fn spec_depth(&self) -> nat {
        self.beam_depth as nat
    }

    pub closed spec fn spec_count(&self) -> nat {
        self.beam_count as nat
    }

    /// One frontier more than the depth can be counted.
    #[verifier::type_invariant]
    spec fn countable(&self) -> bool {
        self.beam_depth < usize::MAX
    }

    pub fn new(beam_width: usize, beam_depth: usize, beam_count: usize) -> (agent: Self)
        requires
            beam_depth < usize::MAX,
        ensures
            agent.spec_width() == beam_width,
            agent.spec_depth() == beam_depth,
            agent.spec_count() == beam_count,
    {
        ChokudaiSearchAgent { beam_width, beam_depth, beam_count }
    }

    /// Up to `beam_width` times the best candidate of depth `t` is expanded.
    fn expand_level(&self, levels: &mut Vec<Frontier>, t: usize)
        requires
            levels_wf(old(levels)@),
            t < usize::MAX,
            t + 1 < old(levels)@.len(),
        ensures
            levels_wf(final(levels)@),
            final(levels)@.len() == old(levels)@.len(),
            levels_view(final(levels)@) == expand_level(
                levels_view(old(levels)@),
                t as int,
                self.spec_width(),
            ),
    {
        let ghost start = levels_view(levels@);
        let below = t + 1;
        let mut spent: usize = 0;
        while spent < self.beam_width
            invariant
                spent <= self.beam_width,
                below == t + 1,
                levels_wf(levels@),
                levels@.len() == old(levels)@.len(),
                t + 1 < levels@.len(),
                expand_level(levels_view(levels@), t as int, (self.beam_width - spent) as nat)
                    == expand_level(start, t as int, self.beam_width as nat),
            ensures
                levels_wf(levels@),
                levels@.len() == old(levels)@.len(),
                levels_view(levels@) == expand_level(start, t as int, self.beam_width as nat),
            decreases self.beam_width - spent,
        {
            let ghost before = levels_view(levels@);
            if levels[t].is_empty() {
                break ;
            }
            if levels[t].get(0).state.is_game_over() {
                break ;
            }
            let best = levels[t].pop().unwrap();
            levels[below].expand(&best);
            assert(levels_view(levels@) =~= expand_best(before, t as int));
            spent += 1;
        }
    }
}

impl Agent<GameState, Action> for ChokudaiSearchAgent {
    /// The search has room to expand a candidate, looks at least one turn ahead and runs
    /// at least one round.
    open spec fn ready(&self) -> bool {
        self.spec_width() > 0 && self.spec_depth() > 0 && self.spec_count() > 0
    }

    /// The first action on the way to the best state of the deepest frontier that the
    /// search fills; `None` where the game is over, the state offers no action, or width,
    /// depth or number of rounds is zero.
    fn choose_action(&mut self, state: &GameState) -> (action: Option<Action>)
        ensures
            action == chokudai_choice(
                state@,
                old(self).spec_width(),
                old(self).spec_depth(),
                old(self).spec_count(),
            ),
            action is Some <==> old(self).spec_width() > 0 && old(self).spec_depth() > 0
                && old(self).spec_count() > 0 && !state@.is_game_over()
                && state@.valid_actions().len() > 0,
            final(self).spec_width() == old(self).spec_width(),
            final(self).spec_depth() == old(self).spec_depth(),
            final(self).spec_count() == old(self).spec_count(),
    {
        proof {
            use_type_invariant(&*self);
            lemma_chokudai_choice(
                state@,
                self.beam_width as nat,
                self.beam_depth as nat,
                self.beam_count as nat,
            );
        }
        let ghost named = chokudai_choice(
            state@,
            self.spec_width(),
            self.spec_depth(),
            self.spec_count(),
        );
        let ghost root = CandidateView::root(state@);
        let ghost width = self.beam_width as nat;
        let ghost depth = self.beam_depth as nat;
        let mut levels: Vec<Frontier> = Vec::new();
        let mut made: usize = 0;
        while made < self.beam_depth + 1
            invariant
                self.beam_depth < usize::MAX,
                made <= self.beam_depth + 1,
                levels@.len() == made,
                levels_wf(levels@),
                forall|t: int| 0 <= t < made ==> (#[trigger] levels@[t])@.len() == 0,
            decreases self.beam_depth + 1 - made,
        {
            levels.push(Frontier::new());
            made += 1;
        }
        levels[0].push(Candidate { state: state.clone(), first_action: None });
        assert(levels_view(levels@) =~~= initial_levels(root, depth));
        let mut round: usize = 0;
        while round < self.beam_count
            invariant
                round <= self.beam_count,
                width == self.beam_width,
                depth == self.beam_depth,
                levels@.len() == depth + 1,
                levels_wf(levels@),
                levels_view(levels@) == rounds(
                    initial_levels(root, depth),
                    depth,
                    width,
                    round as nat,
                ),
            decreases self.beam_count - round,
        {
            let ghost start = levels_view(levels@);
            let mut t: usize = 0;
            while t < self.beam_depth
                invariant
                    t <= self.beam_depth,
                    width == self.beam_width,
                    depth == self.beam_depth,
                    levels@.len() == depth + 1,
                    levels_wf(levels@),
                    sweep(levels_view(levels@), t as nat, depth, width) == sweep(
                        start,
                        0,
                        depth,
                        width,
                    ),
                decreases self.beam_depth - t,
            {
                self.expand_level(&mut levels, t);
                t += 1;
            }
            round += 1;
        }
        let ghost last = levels_view(levels@);
        let mut t: usize = levels.len();
        assert(last.take(t as int) =~= last);
        while t > 0
            invariant
                t <= levels@.len(),
                levels_wf(levels@),
                last == levels_view(levels@),
                last == chokudai_levels(
                    state@,
                    old(self).spec_width(),
                    old(self).spec_depth(),
                    old(self).spec_count(),
                ),
                named == chokudai_choice(
                    state@,
                    old(self).spec_width(),
                    old(self).spec_depth(),
                    old(self).spec_count(),
                ),
                named is Some ==> state@.valid_actions().contains(named->0),
                named is Some <==> old(self).ready() && !state@.is_game_over()
                    && state@.valid_actions().len() > 0,
                deepest_best(last.take(t as int)) == deepest_best(last),
            decreases t,
        {
            assert(last.take(t as int).drop_last() =~= last.take(t - 1));
            t -= 1;
            if !levels[t].is_empty() {
                return levels[t].get(0).first_action;
            }
        }
        None
    }

    /// Plays `state` to its end, taking at each turn the action that a new search names.
    fn play_game(&mut self, state: &mut GameState)
        ensures
            final(state)@ == chokudai_played(
                old(state)@,
                old(self).spec_width(),
                old(self).spec_depth(),
                old(self).spec_count(),
                old(state)@.turns_left(),
            ),
            final(self).spec_width() == old(self).spec_width(),
            final(self).spec_depth() == old(self).spec_depth(),
            final(self).spec_count() == old(self).spec_count(),
    {
        let ghost start = state@;
        let ghost turns: nat = 0;
        while !state.is_game_over()
            invariant
                self.ready(),
                self.spec_width() == old(self).spec_width(),
                self.spec_depth() == old(self).spec_depth(),
                self.spec_count() == old(self).spec_count(),
                state.wf(),
                state@.is_game_over() || state@.valid_actions().len() > 0,
                state@ == chokudai_played(
                    start,
                    self.spec_width(),
                    self.spec_depth(),
                    self.spec_count(),
                    turns,
                ),
                state@.turns_left() + turns == start.turns_left(),
                state@.score >= start.score,
            decreases state@.turns_left(),
        {
            let action = self.choose_action(state).unwrap();
            state.advance(action);
            proof {
                turns = turns + 1;
            }
        }
    }
}

} // verus!
