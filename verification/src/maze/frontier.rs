//! The candidates of a tree search and the frontier that keeps them ordered by score.

use crate::action::Action;
use crate::maze::{lemma_advance, GameState, GameStateView};
use crate::GameStateBase;
use vstd::prelude::*;

verus! {

/// A state that a search has reached, and the first action on the way to it.
pub struct Candidate {
    /// The state reached.
    pub state: GameState,
    /// The action taken first on the way from the root; `None` at the root itself.
    pub first_action: Option<Action>,
}

/// What a `Candidate` stands for.
pub struct CandidateView {
    pub state: GameStateView,
    pub first_action: Option<Action>,
}

impl View for Candidate {
    type V = CandidateView;

    open spec fn view(&self) -> CandidateView {
        CandidateView { state: self.state@, first_action: self.first_action }
    }
}

impl CandidateView {
    /// The candidate that a search starts from.
    pub open spec fn root(state: GameStateView) -> CandidateView {
        CandidateView { state, first_action: None }
    }

    /// The candidate reached by taking `action`. It keeps the first action of its parent;
    /// a child of the root takes `action` as its first.
    pub open spec fn child(self, action: Action) -> CandidateView {
        CandidateView {
            state: self.state.advance(action),
            first_action: match self.first_action {
                Some(first) => Some(first),
                None => Some(action),
            },
        }
    }

    /// The candidates one turn on, one for each valid action in order. A finished game
    /// has none.
    pub open spec fn children(self) -> Seq<CandidateView> {
        if self.state.is_game_over() {
            Seq::empty()
        } else {
            Seq::new(
                self.state.valid_actions().len(),
                |k: int| self.child(self.state.valid_actions()[k]),
            )
        }
    }
}

/// Every candidate holds a valid state.
pub open spec fn all_valid(s: Seq<CandidateView>) -> bool {
    forall|i: int| 0 <= i < s.len() ==> (#[trigger] s[i]).state.valid()
}

/// Every candidate has a first action, one that `root` offers, and can move on.
pub open spec fn led_from(s: Seq<CandidateView>, root: GameStateView) -> bool {
    forall|i: int|
        0 <= i < s.len() ==> {
            &&& (#[trigger] s[i]).first_action is Some
            &&& root.valid_actions().contains(s[i].first_action->0)
            &&& s[i].state.valid_actions().len() > 0
        }
}

/// The scores never rise from the front to the back.
pub open spec fn sorted(s: Seq<CandidateView>) -> bool {
    forall|i: int, j: int| 0 <= i < j < s.len() ==> s[i].state.score >= s[j].state.score
}

/// The number of candidates at the front of `s` that score at least `score`.
pub open spec fn rank(s: Seq<CandidateView>, score: int) -> nat
    decreases s.len(),
{
    if s.len() == 0 || s[0].state.score < score {
        0
    } else {
        1 + rank(s.skip(1), score)
    }
}

/// The frontier with `c` added: behind every candidate that scores at least as much,
/// before the others.
pub open spec fn pushed(s: Seq<CandidateView>, c: CandidateView) -> Seq<CandidateView> {
    s.insert(rank(s, c.state.score) as int, c)
}

/// The frontier with each of `items` added, in their order.
pub open spec fn pushed_all(s: Seq<CandidateView>, items: Seq<CandidateView>) -> Seq<
    CandidateView,
>
    decreases items.len(),
{
    if items.len() == 0 {
        s
    } else {
        pushed(pushed_all(s, items.drop_last()), items.last())
    }
}

/// A position whose predecessors all score at least `score` and that holds a lower
/// score itself, or ends the frontier, is the rank of `score`.
pub proof fn lemma_rank_is(s: Seq<CandidateView>, score: int, p: int)
    requires
        0 <= p <= s.len(),
        forall|i: int| 0 <= i < p ==> (#[trigger] s[i]).state.score >= score,
        p == s.len() || s[p].state.score < score,
    ensures
        rank(s, score) == p,
    decreases p,
{
    if p > 0 {
        let rest = s.skip(1);
        lemma_rank_is(rest, score, p - 1);
    }
}

/// The rank lies in the frontier; everything before it scores at least `score`, and in a
/// sorted frontier everything from it on scores less.
pub proof fn lemma_rank(s: Seq<CandidateView>, score: int)
    ensures
        0 <= rank(s, score) <= s.len(),
        forall|i: int| 0 <= i < rank(s, score) ==> (#[trigger] s[i]).state.score >= score,
        sorted(s) ==> forall|i: int|
            rank(s, score) <= i < s.len() ==> (#[trigger] s[i]).state.score < score,
    decreases s.len(),
{
    if s.len() > 0 && s[0].state.score >= score {
        let rest = s.skip(1);
        lemma_rank(rest, score);
        assert forall|i: int| 0 <= i < rank(s, score) implies (#[trigger] s[i]).state.score
            >= score by {
            if i > 0 {
                assert(rest[i - 1] == s[i]);
            }
        }
        if sorted(s) {
            assert forall|i: int| rank(s, score) <= i < s.len() implies (#[trigger] s[i]).state.score
                < score by {
                assert(rest[i - 1] == s[i]);
            }
        }
    }
}

/// Adding a candidate keeps a sorted frontier sorted and adds nothing else: the frontier
/// holds what it held and the new candidate. The front scores the larger of the old
/// front's score and the new one's.
pub proof fn lemma_pushed(s: Seq<CandidateView>, c: CandidateView)
    requires
        sorted(s),
    ensures
        sorted(pushed(s, c)),
        pushed(s, c).len() == s.len() + 1,
        forall|e: CandidateView| pushed(s, c).contains(e) <==> s.contains(e) || e == c,
        all_valid(s) && c.state.valid() ==> all_valid(pushed(s, c)),
        pushed(s, c)[0].state.score >= c.state.score,
        s.len() > 0 ==> pushed(s, c)[0].state.score >= s[0].state.score,
        s.len() > 0 && s[0].state.score >= c.state.score ==> pushed(s, c)[0] == s[0],
{
    let p = rank(s, c.state.score) as int;
    let t = pushed(s, c);
    lemma_rank(s, c.state.score);
    assert forall|e: CandidateView| t.contains(e) <==> s.contains(e) || e == c by {
        if s.contains(e) {
            let k = choose|k: int| 0 <= k < s.len() && s[k] == e;
            if k < p {
                assert(t[k] == e);
            } else {
                assert(t[k + 1] == e);
            }
        }
        if e == c {
            assert(t[p] == e);
        }
    }
}

/// Adding several candidates keeps a sorted frontier sorted and adds nothing else.
pub proof fn lemma_pushed_all(s: Seq<CandidateView>, items: Seq<CandidateView>)
    requires
        sorted(s),
    ensures
        sorted(pushed_all(s, items)),
        pushed_all(s, items).len() == s.len() + items.len(),
        forall|e: CandidateView|
            pushed_all(s, items).contains(e) <==> s.contains(e) || items.contains(e),
        all_valid(s) && all_valid(items) ==> all_valid(pushed_all(s, items)),
        s.len() > 0 ==> pushed_all(s, items)[0].state.score >= s[0].state.score,
    decreases items.len(),
{
    if items.len() > 0 {
        let front = items.drop_last();
        let last = items.last();
        lemma_pushed_all(s, front);
        lemma_pushed(pushed_all(s, front), last);
        assert forall|e: CandidateView| pushed_all(s, items).contains(e) <==> s.contains(e)
            || items.contains(e) by {
            if front.contains(e) {
                let k = choose|k: int| 0 <= k < front.len() && front[k] == e;
                assert(items[k] == e);
            }
            if items.contains(e) {
                let k = choose|k: int| 0 <= k < items.len() && items[k] == e;
                if k < front.len() {
                    assert(front[k] == e);
                }
            }
        }
    }
}

/// The children of a valid candidate hold valid states of the same game, one turn on,
/// that score at least as much and still offer an action. A child's first action is its
/// parent's, or the action that led to it where the parent is the root.
pub proof fn lemma_children(c: CandidateView)
    requires
        c.state.valid(),
    ensures
        all_valid(c.children()),
        c.state.is_game_over() ==> c.children().len() == 0,
        !c.state.is_game_over() ==> c.children().len() == c.state.valid_actions().len(),
        forall|k: int|
            0 <= k < c.children().len() ==> {
                &&& (#[trigger] c.children()[k]) == c.child(c.state.valid_actions()[k])
                &&& c.children()[k].state.same_game(c.state)
                &&& c.children()[k].state.turn == c.state.turn + 1
                &&& c.children()[k].state.score >= c.state.score
                &&& c.children()[k].state.valid_actions().len() > 0
            },
{
    if !c.state.is_game_over() {
        let actions = c.state.valid_actions();
        assert forall|k: int| 0 <= k < c.children().len() implies {
            &&& (#[trigger] c.children()[k]) == c.child(actions[k])
            &&& c.children()[k].state.valid()
            &&& c.children()[k].state.same_game(c.state)
            &&& c.children()[k].state.turn == c.state.turn + 1
            &&& c.children()[k].state.score >= c.state.score
            &&& c.children()[k].state.valid_actions().len() > 0
        } by {
            lemma_advance(c.state, actions[k]);
        }
    }
}

/// Candidates ordered by score, the best in front. Of two that score the same, the one
/// added first stays in front.
pub struct Frontier {
    entries: Vec<Candidate>,
}

impl View for Frontier {
    type V = Seq<CandidateView>;

    closed spec fn view(&self) -> Seq<CandidateView> {
        Seq::new(self.entries@.len(), |i: int| self.entries@[i]@)
    }
}

impl Frontier {
    /// Every state is stored in the shape that its type asks for.
    pub closed spec fn shaped(&self) -> bool {
        forall|i: int| 0 <= i < self.entries@.len() ==> (#[trigger] self.entries@[i]).state.shaped()
    }

    /// The candidates hold valid states and are ordered by score.
    pub open spec fn wf(&self) -> bool {
        &&& self.shaped()
        &&& all_valid(self@)
        &&& sorted(self@)
    }

    pub fn new() -> (frontier: Self)
        ensures
            frontier.wf(),
            frontier@ == Seq::<CandidateView>::empty(),
    {
        let frontier = Frontier { entries: Vec::new() };
        frontier
    }

    pub fn len(&self) -> (len: usize)
        ensures
            len == self@.len(),
    {
        self.entries.len()
    }

    pub fn is_empty(&self) -> (empty: bool)
        ensures
            empty == (self@.len() == 0),
    {
        self.entries.len() == 0
    }

    /// The candidate at place `i`, counted from the best.
    pub fn get(&self, i: usize) -> (candidate: &Candidate)
        requires
            self.wf(),
            i < self@.len(),
        ensures
            candidate@ == self@[i as int],
            candidate.state.wf(),
    {
        &self.entries[i]
    }

    /// Adds a candidate behind those that score at least as much.
    pub fn push(&mut self, candidate: Candidate)
        requires
            old(self).wf(),
            candidate.state.wf(),
        ensures
            final(self).wf(),
            final(self)@ == pushed(old(self)@, candidate@),
    {
        let score = candidate.state.score();
        let mut at: usize = 0;
        while at < self.entries.len() && self.entries[at].state.score() >= score
            invariant
                at <= self.entries@.len(),
                self@ == old(self)@,
                self.entries@ == old(self).entries@,
                score == candidate@.state.score,
                forall|i: int| 0 <= i < at ==> (#[trigger] self@[i]).state.score >= score,
            decreases self.entries@.len() - at,
        {
            at += 1;
        }
        proof {
            lemma_rank_is(self@, score as int, at as int);
        }
        self.entries.insert(at, candidate);
        assert(self@ =~= pushed(old(self)@, candidate@));
    }

    /// Takes the best candidate out, if there is one.
    pub fn pop(&mut self) -> (best: Option<Candidate>)
        requires
            old(self).wf(),
        ensures
            final(self).wf(),
            old(self)@.len() == 0 ==> best is None && final(self)@ == old(self)@,
            old(self)@.len() > 0 ==> best is Some && best->0@ == old(self)@[0]
                && best->0.state.wf() && final(self)@ == old(self)@.skip(1),
    {
        if self.entries.len() == 0 {
            None
        } else {
            let best = self.entries.remove(0);
            assert(self@ =~= old(self)@.skip(1));
            Some(best)
        }
    }

    /// Keeps the best `width` candidates and drops the others.
    pub fn truncate(&mut self, width: usize)
        requires
            old(self).wf(),
        ensures
            final(self).wf(),
            final(self)@ == kept_best(old(self)@, width as nat),
    {
        self.entries.truncate(width);
    }

    /// Adds the children of `candidate`, in the order of its valid actions.
    pub fn expand(&mut self, candidate: &Candidate)
        requires
            old(self).wf(),
            candidate.state.wf(),
        ensures
            final(self).wf(),
            final(self)@ == pushed_all(old(self)@, candidate@.children()),
    {
        if candidate.state.is_game_over() {
            return ;
        }
        let actions = candidate.state.valid_actions();
        let ghost children = candidate@.children();
        let mut k: usize = 0;
        while k < actions.len()
            invariant
                k <= actions@.len(),
                candidate.state.wf(),
                !candidate@.state.is_game_over(),
                actions@ == candidate@.state.valid_actions(),
                children == candidate@.children(),
                children.len() == actions@.len(),
                self.wf(),
                self@ == pushed_all(old(self)@, children.take(k as int)),
            decreases actions@.len() - k,
        {
            let action = actions[k];
            let mut state = candidate.state.clone();
            state.advance(action);
            let first_action = match candidate.first_action {
                Some(first) => Some(first),
                None => Some(action),
            };
            let child = Candidate { state, first_action };
            assert(children.take(k + 1).drop_last() =~= children.take(k as int));
            self.push(child);
            k += 1;
        }
        assert(children.take(k as int) =~= children);
    }
}

/// The best `width` candidates of a sorted frontier.
pub open spec fn kept_best(s: Seq<CandidateView>, width: nat) -> Seq<CandidateView> {
    if width <= s.len() {
        s.take(width as int)
    } else {
        s
    }
}

} // verus!
