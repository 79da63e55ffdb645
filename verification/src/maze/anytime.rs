//! What the rounds of chokudai search buy: a further round never lowers the best score
//! found, and a single round finds what beam search finds.

use crate::maze::beam_search::{
    beam_after, beam_choice, lemma_beam_choice, next_generation,
};
use crate::maze::chokudai_search::{
    chokudai_choice, chokudai_levels, deepest_best, expand_best, expand_level, expandable,
    initial_levels, lemma_chokudai_choice, lemma_deepest_best, lemma_expand_best,
    lemma_expand_level, lemma_rounds, rounds, searching, sweep,
};
use crate::maze::comparison::{abreast, lemma_next_generation_size};
use crate::maze::frontier::{
    kept_best, lemma_pushed_all, pushed_all, CandidateView,
};
use crate::maze::GameStateView;
use vstd::prelude::*;

verus! {

/// Some frontier holds a candidate.
pub open spec fn occupied(levels: Seq<Seq<CandidateView>>) -> bool {
    exists|t: int| 0 <= t < levels.len() && (#[trigger] levels[t]).len() > 0
}

/// The score of the best candidate of the deepest frontier that holds one.
pub open spec fn best_score(levels: Seq<Seq<CandidateView>>) -> int {
    match deepest_best(levels) {
        Some(best) => best.state.score,
        None => 0,
    }
}

/// Where a frontier holds a candidate there is a deepest such frontier, and it gives the
/// best.
pub proof fn lemma_best_of_occupied(levels: Seq<Seq<CandidateView>>, t: int)
    requires
        0 <= t < levels.len(),
        levels[t].len() > 0,
    ensures
        deepest_best(levels) is Some,
        exists|d: int|
            {
                &&& t <= d < levels.len()
                &&& (#[trigger] levels[d]).len() > 0
                &&& deepest_best(levels) == Some(levels[d][0])
                &&& forall|u: int| d < u < levels.len() ==> (#[trigger] levels[u]).len() == 0
            },
{
    lemma_deepest_best(levels);
}

/// Expanding the best candidate of a depth never lowers the best score found, as long
/// as the state that the search started from offers an action.
pub proof fn lemma_expand_best_improves(
    levels: Seq<Seq<CandidateView>>,
    state: GameStateView,
    depth: nat,
    t: int,
)
    requires
        state.valid(),
        state.valid_actions().len() > 0,
        searching(levels, state, depth),
        0 <= t < depth,
        levels[t].len() > 0,
        !levels[t][0].state.is_game_over(),
    ensures
        occupied(expand_best(levels, t)),
        best_score(expand_best(levels, t)) >= best_score(levels),
{
    let after = expand_best(levels, t);
    let best = levels[t][0];
    lemma_pushed_all(levels[t + 1], best.children());
    lemma_best_of_occupied(levels, t);
    lemma_best_of_occupied(after, t + 1);
    let d = choose|d: int|
        {
            &&& t <= d < levels.len()
            &&& (#[trigger] levels[d]).len() > 0
            &&& deepest_best(levels) == Some(levels[d][0])
            &&& forall|u: int| d < u < levels.len() ==> (#[trigger] levels[u]).len() == 0
        };
    if d > t + 1 {
        assert(after[d] == levels[d]);
    } else if d == t {
        let child = best.children()[0];
        assert(best.children().contains(child));
    }
}

/// Expanding a depth never lowers the best score found.
pub proof fn lemma_expand_level_improves(
    levels: Seq<Seq<CandidateView>>,
    state: GameStateView,
    depth: nat,
    t: int,
    budget: nat,
)
    requires
        state.valid(),
        state.valid_actions().len() > 0,
        searching(levels, state, depth),
        occupied(levels),
        0 <= t < depth,
    ensures
        occupied(expand_level(levels, t, budget)),
        best_score(expand_level(levels, t, budget)) >= best_score(levels),
    decreases budget,
{
    if budget > 0 && levels[t].len() > 0 && !levels[t][0].state.is_game_over() {
        lemma_expand_best(levels, state, depth, t);
        lemma_expand_best_improves(levels, state, depth, t);
        lemma_expand_level_improves(expand_best(levels, t), state, depth, t, (budget - 1) as nat);
    }
}

/// A sweep never lowers the best score found.
pub proof fn lemma_sweep_improves(
    levels: Seq<Seq<CandidateView>>,
    state: GameStateView,
    from: nat,
    depth: nat,
    width: nat,
)
    requires
        state.valid(),
        state.valid_actions().len() > 0,
        searching(levels, state, depth),
        occupied(levels),
    ensures
        occupied(sweep(levels, from, depth, width)),
        best_score(sweep(levels, from, depth, width)) >= best_score(levels),
    decreases depth - from,
{
    if from < depth {
        lemma_expand_level(levels, state, depth, from as int, width);
        lemma_expand_level_improves(levels, state, depth, from as int, width);
        lemma_sweep_improves(
            expand_level(levels, from as int, width),
            state,
            from + 1,
            depth,
            width,
        );
    }
}

/// After any number of rounds some frontier holds a candidate, as long as the state that
/// the search started from offers an action.
pub proof fn lemma_rounds_occupied(state: GameStateView, width: nat, depth: nat, count: nat)
    requires
        state.valid(),
        state.valid_actions().len() > 0,
    ensures
        occupied(chokudai_levels(state, width, depth, count)),
        deepest_best(chokudai_levels(state, width, depth, count)) is Some,
    decreases count,
{
    let start = initial_levels(CandidateView::root(state), depth);
    if count == 0 {
        assert(start[0].len() > 0);
    } else {
        lemma_rounds_occupied(state, width, depth, (count - 1) as nat);
        lemma_rounds(state, width, depth, (count - 1) as nat);
        lemma_sweep_improves(rounds(start, depth, width, (count - 1) as nat), state, 0, depth, width);
    }
    let levels = chokudai_levels(state, width, depth, count);
    let t = choose|t: int| 0 <= t < levels.len() && (#[trigger] levels[t]).len() > 0;
    lemma_best_of_occupied(levels, t);
}

/// One more round never lowers the score of the best state that chokudai search finds.
pub proof fn lemma_chokudai_round_improves(
    state: GameStateView,
    width: nat,
    depth: nat,
    count: nat,
)
    requires
        state.valid(),
        state.valid_actions().len() > 0,
    ensures
        deepest_best(chokudai_levels(state, width, depth, count)) is Some,
        deepest_best(chokudai_levels(state, width, depth, count + 1)) is Some,
        best_score(chokudai_levels(state, width, depth, count + 1)) >= best_score(
            chokudai_levels(state, width, depth, count),
        ),
{
    lemma_rounds_occupied(state, width, depth, count);
    lemma_rounds_occupied(state, width, depth, count + 1);
    lemma_rounds(state, width, depth, count);
    lemma_sweep_improves(chokudai_levels(state, width, depth, count), state, 0, depth, width);
}

/// More rounds never lower the score of the best state that chokudai search finds.
pub proof fn lemma_chokudai_rounds_improve(
    state: GameStateView,
    width: nat,
    depth: nat,
    fewer: nat,
    more: nat,
)
    requires
        state.valid(),
        state.valid_actions().len() > 0,
        fewer <= more,
    ensures
        best_score(chokudai_levels(state, width, depth, more)) >= best_score(
            chokudai_levels(state, width, depth, fewer),
        ),
    decreases more,
{
    if fewer < more {
        lemma_chokudai_rounds_improve(state, width, depth, fewer, (more - 1) as nat);
        lemma_chokudai_round_improves(state, width, depth, (more - 1) as nat);
    }
}

/// The frontier `acc` with the children of every candidate of `beam` added, the children
/// of candidates nearer the front first.
pub open spec fn extended(acc: Seq<CandidateView>, beam: Seq<CandidateView>) -> Seq<
    CandidateView,
>
    decreases beam.len(),
{
    if beam.len() == 0 {
        acc
    } else {
        pushed_all(extended(acc, beam.drop_last()), beam.last().children())
    }
}

/// The next generation of a beam is the empty frontier extended by the beam.
pub proof fn lemma_extended_is_next(beam: Seq<CandidateView>)
    ensures
        next_generation(beam) == extended(Seq::empty(), beam),
    decreases beam.len(),
{
    if beam.len() > 0 {
        lemma_extended_is_next(beam.drop_last());
    }
}

/// Extending by a beam is adding the children of its first candidate and extending by
/// the rest.
pub proof fn lemma_extended_front(acc: Seq<CandidateView>, beam: Seq<CandidateView>)
    requires
        beam.len() > 0,
    ensures
        extended(acc, beam) == extended(pushed_all(acc, beam[0].children()), beam.skip(1)),
    decreases beam.len(),
{
    let first = pushed_all(acc, beam[0].children());
    let front = beam.drop_last();
    let rest = beam.skip(1);
    if beam.len() == 1 {
        assert(extended(acc, front) == acc);
    } else {
        lemma_extended_front(acc, front);
        assert(front.skip(1) =~= rest.drop_last());
        assert(extended(first, rest) == pushed_all(
            extended(first, rest.drop_last()),
            rest.last().children(),
        ));
    }
}

/// The number of candidates that a budget allows to take from a frontier.
pub open spec fn taken(budget: nat, held: nat) -> nat {
    if budget <= held {
        budget
    } else {
        held
    }
}

/// Expanding a depth at which no game is finished takes as many candidates from its
/// front as the budget allows and extends the frontier below by them.
pub proof fn lemma_expand_level_takes(levels: Seq<Seq<CandidateView>>, t: int, budget: nat)
    requires
        0 <= t,
        t + 1 < levels.len(),
        forall|i: int| 0 <= i < levels[t].len() ==> !(#[trigger] levels[t][i]).state.is_game_over(),
    ensures
        expand_level(levels, t, budget) == levels.update(
            t,
            levels[t].skip(taken(budget, levels[t].len()) as int),
        ).update(
            t + 1,
            extended(levels[t + 1], levels[t].take(taken(budget, levels[t].len()) as int)),
        ),
    decreases budget,
{
    let held = levels[t];
    let m = taken(budget, held.len()) as int;
    if budget == 0 || held.len() == 0 {
        assert(held.skip(0) =~= held);
    } else {
        let after = expand_best(levels, t);
        lemma_expand_level_takes(after, t, (budget - 1) as nat);
        let n = taken((budget - 1) as nat, after[t].len()) as int;
        assert(held.skip(1).skip(n) =~= held.skip(m));
        assert(held.skip(1).take(n) =~= held.take(m).skip(1));
        lemma_extended_front(levels[t + 1], held.take(m));
    }
}

/// The sweep of the first round has reached depth `from`. The deepest frontier that
/// holds candidates is the one at depth `at`, nothing has been taken from it yet, and
/// its best candidates are what the beam holds after `from` generations. Where `at` is
/// less than `from`, the games at depth `at` are finished.
pub open spec fn in_step(
    levels: Seq<Seq<CandidateView>>,
    state: GameStateView,
    width: nat,
    depth: nat,
    from: nat,
    at: nat,
) -> bool {
    &&& searching(levels, state, depth)
    &&& at <= from <= depth
    &&& levels[at as int].len() > 0
    &&& forall|u: int| at < u <= depth ==> (#[trigger] levels[u]).len() == 0
    &&& kept_best(levels[at as int], width) == beam_after(
        CandidateView::root(state),
        width,
        from,
    )
    &&& abreast(levels[at as int], state, state.turn + at)
    &&& at < from ==> state.turn + at >= state.max_turns
}

/// A sweep that is in step with beam search ends with the best candidate that beam
/// search ends with.
pub proof fn lemma_sweep_in_step(
    levels: Seq<Seq<CandidateView>>,
    state: GameStateView,
    width: nat,
    depth: nat,
    from: nat,
    at: nat,
)
    requires
        state.valid(),
        expandable(state),
        width > 0,
        in_step(levels, state, width, depth, from, at),
    ensures
        beam_after(CandidateView::root(state), width, depth).len() > 0,
        deepest_best(sweep(levels, from, depth, width)) == Some(
            beam_after(CandidateView::root(state), width, depth)[0],
        ),
    decreases depth - from,
{
    let root = CandidateView::root(state);
    let held = levels[at as int];
    let beam = beam_after(root, width, from);
    if from >= depth {
        lemma_best_of_occupied(levels, at as int);
    } else {
        let turn = state.turn + at;
        lemma_next_generation_size(beam, state, turn);
        if at < from || turn >= state.max_turns {
            // The games at the deepest filled depth are finished: nothing is expanded
            // any more, and the beam stays as it is.
            lemma_sweep_in_step(levels, state, width, depth, from + 1, at);
        } else {
            lemma_expand_level_takes(levels, from as int, width);
            lemma_expand_level(levels, state, depth, from as int, width);
            let m = taken(width, held.len()) as int;
            assert(held.take(m) =~= kept_best(held, width));
            let below = from as int + 1;
            assert(levels[below] =~= Seq::<CandidateView>::empty());
            lemma_extended_is_next(beam);
            let after = expand_level(levels, from as int, width);
            // The best candidate is no finished game and can move, so it has a child.
            lemma_sweep_in_step(after, state, width, depth, from + 1, from + 1);
        }
    }
}

/// Chokudai search that runs a single round chooses what beam search of the same width
/// and depth chooses.
pub proof fn lemma_chokudai_one_round(state: GameStateView, width: nat, depth: nat)
    requires
        state.valid(),
    ensures
        chokudai_choice(state, width, depth, 1) == beam_choice(state, width, depth),
{
    let root = CandidateView::root(state);
    lemma_chokudai_choice(state, width, depth, 1);
    lemma_beam_choice(state, width, depth);
    if expandable(state) && width > 0 && depth > 0 {
        let start = initial_levels(root, depth);
        lemma_rounds(state, width, depth, 0);
        assert(kept_best(start[0], width) =~= beam_after(root, width, 0));
        lemma_sweep_in_step(start, state, width, depth, 0, 0);
    }
}

} // verus!
