//! The four moves on the grid and what they lead to.

use vstd::prelude::*;

verus! {

/// A move by one cell.
#[derive(Clone, Copy, Debug, PartialEq, Eq, Structural)]
pub enum Action {
    Up,
    Down,
    Left,
    Right,
}

/// A cell of the grid: row `y` counted from the top, column `x` counted from the left.
pub struct Position {
    pub y: int,
    pub x: int,
}

impl Action {
    /// The cell one step from `from` in this direction.
    pub open spec fn destination(self, from: Position) -> Position {
        match self {
            Action::Up => Position { y: from.y - 1, x: from.x },
            Action::Down => Position { y: from.y + 1, x: from.x },
            Action::Left => Position { y: from.y, x: from.x - 1 },
            Action::Right => Position { y: from.y, x: from.x + 1 },
        }
    }
}

/// The cell lies on a grid of `h` rows and `w` columns.
pub open spec fn in_bounds(h: nat, w: nat, p: Position) -> bool {
    0 <= p.y < h && 0 <= p.x < w
}

/// The action alone if it is kept, nothing otherwise.
pub open spec fn kept(action: Action, keep: bool) -> Seq<Action> {
    if keep {
        seq![action]
    } else {
        Seq::empty()
    }
}

/// The moves that keep a mover at `from` on a grid of `h` rows and `w` columns, in the
/// order up, down, left, right.
pub open spec fn moves(h: nat, w: nat, from: Position) -> Seq<Action> {
    kept(Action::Up, in_bounds(h, w, Action::Up.destination(from))) + kept(
        Action::Down,
        in_bounds(h, w, Action::Down.destination(from)),
    ) + kept(Action::Left, in_bounds(h, w, Action::Left.destination(from))) + kept(
        Action::Right,
        in_bounds(h, w, Action::Right.destination(from)),
    )
}

/// The index of the largest of the gains; of several equally large ones, the last.
pub open spec fn last_best(gains: Seq<int>) -> int
    decreases gains.len(),
{
    if gains.len() <= 1 {
        0
    } else {
        let before = last_best(gains.drop_last());
        if gains.last() >= gains[before] {
            gains.len() - 1
        } else {
            before
        }
    }
}

/// `moves` holds exactly the actions whose destination lies on the grid, each once.
pub proof fn lemma_moves(h: nat, w: nat, from: Position)
    ensures
        forall|a: Action|
            moves(h, w, from).contains(a) <==> in_bounds(h, w, #[trigger] a.destination(from)),
        moves(h, w, from).no_duplicates(),
        moves(h, w, from).len() <= 4,
        in_bounds(h, w, from) && (h > 1 || w > 1) ==> moves(h, w, from).len() > 0,
{
    let up = kept(Action::Up, in_bounds(h, w, Action::Up.destination(from)));
    let down = kept(Action::Down, in_bounds(h, w, Action::Down.destination(from)));
    let left = kept(Action::Left, in_bounds(h, w, Action::Left.destination(from)));
    let all = moves(h, w, from);
    assert forall|a: Action| all.contains(a) <==> in_bounds(
        h,
        w,
        #[trigger] a.destination(from),
    ) by {
        if in_bounds(h, w, a.destination(from)) {
            match a {
                Action::Up => {
                    assert(all[0] == a);
                },
                Action::Down => {
                    assert(all[up.len() as int] == a);
                },
                Action::Left => {
                    assert(all[(up.len() + down.len()) as int] == a);
                },
                Action::Right => {
                    assert(all[(up.len() + down.len() + left.len()) as int] == a);
                },
            }
        }
    }
}

/// The gain at `last_best` is the largest, and every later gain is strictly smaller.
pub proof fn lemma_last_best(gains: Seq<int>)
    requires
        gains.len() > 0,
    ensures
        0 <= last_best(gains) < gains.len(),
        forall|k: int| 0 <= k < gains.len() ==> #[trigger] gains[k] <= gains[last_best(gains)],
        forall|k: int|
            last_best(gains) < k < gains.len() ==> #[trigger] gains[k] < gains[last_best(gains)],
    decreases gains.len(),
{
    if gains.len() > 1 {
        let front = gains.drop_last();
        lemma_last_best(front);
        assert forall|k: int| 0 <= k < gains.len() implies #[trigger] gains[k] <= gains[last_best(
            gains,
        )] by {
            if k < front.len() {
                assert(front[k] == gains[k]);
            }
        }
        assert forall|k: int| last_best(gains) < k < gains.len() implies #[trigger] gains[k]
            < gains[last_best(gains)] by {
            if k < front.len() {
                assert(front[k] == gains[k]);
            }
        }
    }
}

} // verus!
