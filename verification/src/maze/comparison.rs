//! How the searches compare: what beam search is sure to find, and how it relates to the
//! greedy strategy.

use crate::action::{lemma_moves, Action};
use crate::maze::beam_search::{
    beam_after, beam_choice, beam_played, lemma_beam_after, lemma_beam_choice,
    lemma_next_generation, next_generation,
};
use crate::maze::frontier::{
    all_valid, lemma_children, lemma_pushed_all, CandidateView,
};
use crate::maze::greedy::{greedy_choice, greedy_played, lemma_greedy_choice};
use crate::maze::{lemma_advance, GameStateView};
use vstd::prelude::*;

verus! {

/// The state that the actions of `path`, taken in order, lead to.
pub open spec fn path_end(state: GameStateView, path: Seq<Action>) -> GameStateView
    decreases path.len(),
{
    if path.len() == 0 {
        state
    } else {
        path_end(state, path.drop_last()).advance(path.last())
    }
}

/// Every action of `path` is valid where it is taken, and the game is not over before
/// the last of them.
pub open spec fn legal(state: GameStateView, path: Seq<Action>) -> bool
    decreases path.len(),
{
    path.len() == 0 || {
        &&& legal(state, path.drop_last())
        &&& !path_end(state, path.drop_last()).is_game_over()
        &&& path_end(state, path.drop_last()).valid_actions().contains(path.last())
    }
}

/// Four to the power of `n`: the most states that `n` actions can lead to.
pub open spec fn four_to(n: nat) -> nat
    decreases n,
{
    if n == 0 {
        1
    } else {
        4 * four_to((n - 1) as nat)
    }
}

/// The first `turns` actions that the greedy strategy takes from `state`.
pub open spec fn greedy_path(state: GameStateView, turns: nat) -> Seq<Action>
    decreases turns,
{
    if turns == 0 {
        Seq::empty()
    } else {
        let before = greedy_path(state, (turns - 1) as nat);
        match greedy_choice(path_end(state, before)) {
            Some(action) => before.push(action),
            None => before,
        }
    }
}

/// The candidate is the end of `path`, and its first action is the first of the path.
pub open spec fn reached_by(state: GameStateView, c: CandidateView, path: Seq<Action>) -> bool {
    &&& legal(state, path)
    &&& c.state == path_end(state, path)
    &&& c.first_action == if path.len() == 0 {
        None
    } else {
        Some(path[0])
    }
}

/// Some legal path leads to the candidate and starts with its first action.
pub open spec fn reachable(state: GameStateView, c: CandidateView) -> bool {
    exists|path: Seq<Action>| reached_by(state, c, path)
}

/// All candidates are at the same turn of the same game.
pub open spec fn abreast(s: Seq<CandidateView>, of: GameStateView, turn: int) -> bool {
    forall|i: int| 0 <= i < s.len() ==> (#[trigger] s[i]).state.same_game(of) && s[i].state.turn == turn
}

/// A legal path keeps the state valid and the game the same, counts one turn for each
/// action, and never lowers the score.
pub proof fn lemma_path_end(state: GameStateView, path: Seq<Action>)
    requires
        state.valid(),
        legal(state, path),
    ensures
        path_end(state, path).valid(),
        path_end(state, path).same_game(state),
        path_end(state, path).turn == state.turn + path.len(),
        path_end(state, path).score >= state.score,
        path.len() > 0 ==> path_end(state, path).valid_actions().len() > 0,
        path.len() > 0 ==> !state.is_game_over() && state.valid_actions().len() > 0,
    decreases path.len(),
{
    if path.len() > 0 {
        lemma_path_end(state, path.drop_last());
        lemma_advance(path_end(state, path.drop_last()), path.last());
    }
}

/// Four to a power is at least one and grows with the exponent.
pub proof fn lemma_four_to(n: nat, m: nat)
    requires
        n <= m,
    ensures
        1 <= four_to(n) <= four_to(m),
    decreases m,
{
    if m > 0 {
        if n < m {
            lemma_four_to(n, (m - 1) as nat);
        } else {
            lemma_four_to((n - 1) as nat, (m - 1) as nat);
        }
    }
}

/// A generation has at most four children for each candidate. Candidates that are
/// abreast have children that are abreast one turn on, and finished games have none.
pub proof fn lemma_next_generation_size(beam: Seq<CandidateView>, of: GameStateView, turn: int)
    requires
        all_valid(beam),
        abreast(beam, of, turn),
    ensures
        next_generation(beam).len() <= 4 * beam.len(),
        abreast(next_generation(beam), of, turn + 1),
        turn >= of.max_turns ==> next_generation(beam).len() == 0,
    decreases beam.len(),
{
    lemma_next_generation(beam);
    if beam.len() > 0 {
        let front = beam.drop_last();
        let last = beam.last();
        lemma_next_generation_size(front, of, turn);
        lemma_next_generation(front);
        lemma_children(last);
        lemma_moves(last.state.h, last.state.w, last.state.player);
        lemma_pushed_all(next_generation(front), last.children());
        let next = next_generation(beam);
        assert forall|i: int| 0 <= i < next.len() implies (#[trigger] next[i]).state.same_game(of)
            && next[i].state.turn == turn + 1 by {
            let p = choose|p: int|
                0 <= p < beam.len() && (#[trigger] beam[p]).children().contains(next[i]);
            lemma_children(beam[p]);
        }
    }
}

/// However deep the search goes, the beam holds candidates that are abreast. While the
/// width allows a candidate, a deeper search never ends with a lower best score.
pub proof fn lemma_beam_deepens(state: GameStateView, width: nat, depth: nat)
    requires
        state.valid(),
        width > 0,
    ensures
        beam_after(CandidateView::root(state), width, depth).len() > 0,
        exists|turn: int|
            #[trigger] abreast(beam_after(CandidateView::root(state), width, depth), state, turn),
        depth > 0 ==> beam_after(CandidateView::root(state), width, depth)[0].state.score
            >= beam_after(
            CandidateView::root(state),
            width,
            (depth - 1) as nat,
        )[0].state.score,
    decreases depth,
{
    let root = CandidateView::root(state);
    lemma_beam_after(state, width, depth);
    if depth == 0 {
        assert(abreast(beam_after(root, width, depth), state, state.turn));
    } else {
        lemma_beam_deepens(state, width, (depth - 1) as nat);
        lemma_beam_after(state, width, (depth - 1) as nat);
        let before = beam_after(root, width, (depth - 1) as nat);
        let next = next_generation(before);
        let beam = beam_after(root, width, depth);
        let turn = choose|turn: int| abreast(before, state, turn);
        lemma_next_generation_size(before, state, turn);
        lemma_next_generation(before);
        if next.len() > 0 {
            assert(abreast(beam, state, turn + 1));
            // Some candidate has a child, so none is a finished game; the best one has a
            // child too, and the best of the next generation scores no less than it.
            let best = before[0];
            lemma_children(best);
            let child = best.children()[0];
            assert(next.contains(child));
        }
    }
}

/// A deeper search never ends with a lower best score than a shallower one.
pub proof fn lemma_beam_best_grows(state: GameStateView, width: nat, shallow: nat, deep: nat)
    requires
        state.valid(),
        width > 0,
        shallow <= deep,
    ensures
        beam_after(CandidateView::root(state), width, shallow).len() > 0,
        beam_after(CandidateView::root(state), width, deep).len() > 0,
        beam_after(CandidateView::root(state), width, deep)[0].state.score >= beam_after(
            CandidateView::root(state),
            width,
            shallow,
        )[0].state.score,
    decreases deep,
{
    lemma_beam_deepens(state, width, deep);
    if shallow < deep {
        lemma_beam_best_grows(state, width, shallow, (deep - 1) as nat);
    }
}

/// A beam wide enough to hold every state that the actions of a legal path can lead to
/// does hold the end of that path, after as many generations as the path is long.
pub proof fn lemma_beam_holds_path(state: GameStateView, width: nat, path: Seq<Action>)
    requires
        state.valid(),
        legal(state, path),
        width >= four_to(path.len()),
    ensures
        beam_after(CandidateView::root(state), width, path.len()).len() <= four_to(path.len()),
        abreast(
            beam_after(CandidateView::root(state), width, path.len()),
            state,
            state.turn + path.len(),
        ),
        exists|i: int|
            0 <= i < beam_after(CandidateView::root(state), width, path.len()).len()
                && (#[trigger] beam_after(
                CandidateView::root(state),
                width,
                path.len(),
            )[i]).state == path_end(state, path),
    decreases path.len(),
{
    let root = CandidateView::root(state);
    let beam = beam_after(root, width, path.len());
    if path.len() == 0 {
        assert(beam[0].state == path_end(state, path));
    } else {
        let front = path.drop_last();
        lemma_beam_holds_path(state, width, front);
        lemma_beam_after(state, width, front.len());
        let before = beam_after(root, width, front.len());
        let next = next_generation(before);
        lemma_next_generation(before);
        lemma_next_generation_size(before, state, state.turn + front.len());
        let i = choose|i: int| 0 <= i < before.len() && (#[trigger] before[i]).state == path_end(
            state,
            front,
        );
        let parent = before[i];
        let actions = parent.state.valid_actions();
        let k = choose|k: int| 0 <= k < actions.len() && actions[k] == path.last();
        let child = parent.children()[k];
        assert(next.contains(child));
        assert(beam == next);
    }
}

/// Beam search finds a state that scores no less than the end of any legal path,
/// provided the search is as deep as the path is long and the beam is wide enough to
/// hold every state that so many actions can lead to. For one action the width is four,
/// the number of directions.
pub proof fn lemma_beam_covers_path(
    state: GameStateView,
    width: nat,
    depth: nat,
    path: Seq<Action>,
)
    requires
        state.valid(),
        legal(state, path),
        path.len() <= depth,
        width >= four_to(path.len()),
    ensures
        beam_after(CandidateView::root(state), width, depth).len() > 0,
        beam_after(CandidateView::root(state), width, depth)[0].state.score >= path_end(
            state,
            path,
        ).score,
{
    lemma_beam_holds_path(state, width, path);
    lemma_beam_after(state, width, path.len());
    lemma_beam_best_grows(state, width, path.len(), depth);
}

/// The greedy strategy takes a legal path of one action for each turn that is left, and
/// the path ends where the strategy ends.
pub proof fn lemma_greedy_path(state: GameStateView, turns: nat)
    requires
        state.valid(),
        state.valid_actions().len() > 0,
        turns <= state.turns_left(),
    ensures
        legal(state, greedy_path(state, turns)),
        greedy_path(state, turns).len() == turns,
        path_end(state, greedy_path(state, turns)) == greedy_played(state, turns),
    decreases turns,
{
    if turns > 0 {
        lemma_greedy_path(state, (turns - 1) as nat);
        let before = greedy_path(state, (turns - 1) as nat);
        lemma_path_end(state, before);
        let reached = path_end(state, before);
        let choice = greedy_choice(reached);
        lemma_greedy_choice(reached);
        let path = before.push(choice->0);
        assert(path.drop_last() =~= before);
    }
}

/// Beam search that looks to the end of the game, with a beam wide enough to hold every
/// state that the turns left can lead to, finds a finished game that scores no less
/// than the game that the greedy strategy plays from the same state.
pub proof fn lemma_beam_subsumes_greedy(state: GameStateView, width: nat, depth: nat)
    requires
        state.valid(),
        state.valid_actions().len() > 0,
        depth >= state.turns_left(),
        width >= four_to(state.turns_left()),
    ensures
        beam_after(CandidateView::root(state), width, depth).len() > 0,
        beam_after(CandidateView::root(state), width, depth)[0].state.score >= greedy_played(
            state,
            state.turns_left(),
        ).score,
        greedy_played(state, state.turns_left()).is_game_over(),
{
    lemma_greedy_path(state, state.turns_left());
    let path = greedy_path(state, state.turns_left());
    lemma_path_end(state, path);
    lemma_beam_covers_path(state, width, depth, path);
}

/// A legal path is no longer than the turns that are left. Without its first action it
/// is a legal path from the state that this action leads to, and it ends where it ended.
pub proof fn lemma_path_front(state: GameStateView, path: Seq<Action>)
    requires
        state.valid(),
        legal(state, path),
        path.len() > 0,
    ensures
        path.len() <= state.turns_left(),
        !state.is_game_over(),
        state.valid_actions().contains(path[0]),
        legal(state.advance(path[0]), path.skip(1)),
        path_end(state.advance(path[0]), path.skip(1)) == path_end(state, path),
    decreases path.len(),
{
    let front = path.drop_last();
    let rest = path.skip(1);
    lemma_path_end(state, front);
    if path.len() > 1 {
        lemma_path_front(state, front);
        assert(front.skip(1) =~= rest.drop_last());
    }
}

/// A child of a candidate that a path leads to is led to by the path and one action
/// more.
pub proof fn lemma_child_path(state: GameStateView, parent: CandidateView, way: Seq<Action>, k: int)
    requires
        state.valid(),
        reached_by(state, parent, way),
        0 <= k < parent.children().len(),
    ensures
        reached_by(state, parent.children()[k], way.push(parent.state.valid_actions()[k])),
{
    let action = parent.state.valid_actions()[k];
    let path = way.push(action);
    assert(path.drop_last() =~= way);
}

/// Every candidate of the beam is the end of a legal path that starts with the
/// candidate's first action.
pub proof fn lemma_beam_paths(state: GameStateView, width: nat, depth: nat)
    requires
        state.valid(),
    ensures
        forall|i: int|
            0 <= i < beam_after(CandidateView::root(state), width, depth).len() ==> reachable(
                state,
                #[trigger] beam_after(CandidateView::root(state), width, depth)[i],
            ),
    decreases depth,
{
    let root = CandidateView::root(state);
    let beam = beam_after(root, width, depth);
    if depth == 0 {
        assert(reached_by(state, root, Seq::<Action>::empty()));
    } else {
        lemma_beam_paths(state, width, (depth - 1) as nat);
        lemma_beam_after(state, width, (depth - 1) as nat);
        let before = beam_after(root, width, (depth - 1) as nat);
        let next = next_generation(before);
        lemma_next_generation(before);
        if next.len() > 0 {
            assert forall|i: int| 0 <= i < beam.len() implies reachable(
                state,
                #[trigger] beam[i],
            ) by {
                assert(next.contains(next[i]));
                let p = choose|p: int|
                    0 <= p < before.len() && (#[trigger] before[p]).children().contains(next[i]);
                let parent = before[p];
                let way = choose|way: Seq<Action>| reached_by(state, parent, way);
                let k = choose|k: int|
                    0 <= k < parent.children().len() && parent.children()[k] == next[i];
                lemma_child_path(state, parent, way, k);
            }
        }
    }
}

/// Taking the action that an exhaustive beam search names loses nothing: the search
/// from the state it leads to finds a game that scores no less than the best found
/// before.
pub proof fn lemma_beam_step_keeps_best(state: GameStateView, width: nat, depth: nat)
    requires
        state.valid(),
        !state.is_game_over(),
        state.valid_actions().len() > 0,
        depth >= state.turns_left(),
        width >= four_to(state.turns_left()),
    ensures
        beam_choice(state, width, depth) is Some,
        state.valid_actions().contains(beam_choice(state, width, depth)->0),
        beam_after(CandidateView::root(state), width, depth).len() > 0,
        beam_after(
            CandidateView::root(state.advance(beam_choice(state, width, depth)->0)),
            width,
            depth,
        ).len() > 0,
        beam_after(
            CandidateView::root(state.advance(beam_choice(state, width, depth)->0)),
            width,
            depth,
        )[0].state.score >= beam_after(CandidateView::root(state), width, depth)[0].state.score,
{
    let root = CandidateView::root(state);
    let beam = beam_after(root, width, depth);
    lemma_four_to(0, state.turns_left());
    lemma_beam_choice(state, width, depth);
    lemma_beam_paths(state, width, depth);
    let best = beam[0];
    let path = choose|path: Seq<Action>| reached_by(state, best, path);
    let action = beam_choice(state, width, depth)->0;
    lemma_path_front(state, path);
    lemma_advance(state, action);
    let next = state.advance(action);
    let rest = path.skip(1);
    lemma_four_to(rest.len(), state.turns_left());
    lemma_beam_covers_path(next, width, depth, rest);
}

/// While beam search plays, searching exhaustively at each turn, the best game that the
/// search finds never scores less than the best found at the start.
pub proof fn lemma_beam_played_keeps_best(
    state: GameStateView,
    width: nat,
    depth: nat,
    turns: nat,
)
    requires
        state.valid(),
        state.valid_actions().len() > 0,
        depth >= state.turns_left(),
        width >= four_to(state.turns_left()),
        turns <= state.turns_left(),
    ensures
        beam_played(state, width, depth, turns).valid(),
        beam_played(state, width, depth, turns).valid_actions().len() > 0,
        beam_played(state, width, depth, turns).turns_left() == state.turns_left() - turns,
        beam_after(
            CandidateView::root(beam_played(state, width, depth, turns)),
            width,
            depth,
        ).len() > 0,
        beam_after(
            CandidateView::root(beam_played(state, width, depth, turns)),
            width,
            depth,
        )[0].state.score >= beam_after(CandidateView::root(state), width, depth)[0].state.score,
    decreases turns,
{
    lemma_four_to(0, state.turns_left());
    if turns == 0 {
        lemma_beam_deepens(state, width, depth);
    } else {
        lemma_beam_played_keeps_best(state, width, depth, (turns - 1) as nat);
        let before = beam_played(state, width, depth, (turns - 1) as nat);
        lemma_four_to(before.turns_left(), state.turns_left());
        lemma_beam_step_keeps_best(before, width, depth);
        lemma_advance(before, beam_choice(before, width, depth)->0);
    }
}

/// Beam search that looks to the end of the game, with a beam wide enough to hold every
/// state that the turns left can lead to, plays a game that scores no less than the
/// game that the greedy strategy plays from the same state.
pub proof fn lemma_beam_play_subsumes_greedy(state: GameStateView, width: nat, depth: nat)
    requires
        state.valid(),
        state.valid_actions().len() > 0,
        depth >= state.turns_left(),
        width >= four_to(state.turns_left()),
    ensures
        beam_played(state, width, depth, state.turns_left()).score >= greedy_played(
            state,
            state.turns_left(),
        ).score,
{
    lemma_beam_played_keeps_best(state, width, depth, state.turns_left());
    lemma_beam_subsumes_greedy(state, width, depth);
    let last = beam_played(state, width, depth, state.turns_left());
    lemma_beam_after(last, width, depth);
}

} // verus!
