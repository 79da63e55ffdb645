//! A board with a single mover that is steered one action at a time.

use crate::action::{in_bounds, moves, Position};
pub use crate::action::Action;
use crate::board::{
    after_points, cell_glyph, drawn_grid, glyph, grid_cleared, grid_total, grid_valid,
    lemma_grid_bounds, lemma_grid_cleared, Board,
};
use crate::rng::{gen_index, index_draw, seeded_rng, seeded_state};
use crate::GameStateBase;
use vstd::prelude::*;

pub mod anytime;
pub mod beam_search;
pub mod chokudai_search;
pub mod comparison;
pub mod frontier;
pub mod greedy;
pub mod random;

verus! {

/// Where the mover stands.
#[derive(Clone, Copy, Debug)]
struct Player {
    y: usize,
    x: usize,
}

/// What a `GameState` stands for.
pub struct GameStateView {
    /// Number of rows.
    pub h: nat,
    /// Number of columns.
    pub w: nat,
    /// The turn at which the game is over.
    pub max_turns: int,
    /// Turns played so far.
    pub turn: int,
    /// Points collected so far.
    pub score: int,
    /// The board by columns: `points[x][y]` is the value left in column `x`, row `y`.
    pub points: Seq<Seq<int>>,
    /// Where the mover stands.
    pub player: Position,
}

impl GameStateView {
    /// The invariant of every state: the board has the stated shape, the mover stands on
    /// it, the turn has not passed the limit, and the points collected so far together
    /// with those still on the board fit the score's type.
    pub open spec fn valid(self) -> bool {
        &&& grid_valid(self.points, self.w, self.h)
        &&& in_bounds(self.h, self.w, self.player)
        &&& 0 <= self.turn
        &&& (self.turn <= self.max_turns || self.turn == 0)
        &&& 0 <= self.score
        &&& self.score + grid_total(self.points) <= i32::MAX
    }

    /// Same board size and turn limit.
    pub open spec fn same_game(self, other: GameStateView) -> bool {
        &&& self.h == other.h
        &&& self.w == other.w
        &&& self.max_turns == other.max_turns
    }

    pub open spec fn is_game_over(self) -> bool {
        self.turn >= self.max_turns
    }

    /// The number of turns until the game is over.
    pub open spec fn turns_left(self) -> nat {
        if self.turn >= self.max_turns {
            0
        } else {
            (self.max_turns - self.turn) as nat
        }
    }

    /// The moves that keep the mover on the board, in the order up, down, left, right.
    pub open spec fn valid_actions(self) -> Seq<Action> {
        moves(self.h, self.w, self.player)
    }

    /// The value left in cell `p`.
    pub open spec fn value_at(self, p: Position) -> int {
        self.points[p.x][p.y]
    }

    /// Row `y` of the board as it is drawn, one character for each cell.
    pub open spec fn row_drawn(self, y: int) -> Seq<char> {
        Seq::new(
            self.w,
            |x: int| glyph(self.player == (Position { y, x }), self.value_at(Position { y, x })),
        )
    }

    /// One turn: the mover steps one cell in the direction of `action`, the value of the
    /// cell it reaches goes to the score, and the cell is emptied.
    pub open spec fn advance(self, action: Action) -> GameStateView {
        let to = action.destination(self.player);
        GameStateView {
            turn: self.turn + 1,
            score: self.score + self.value_at(to),
            points: grid_cleared(self.points, to.x, to.y),
            player: to,
            ..self
        }
    }

    /// The state at the start of a game on the given board, stored by columns, with the
    /// mover on `player`: nothing played, nothing scored.
    pub open spec fn starting(
        h: nat,
        w: nat,
        points: Seq<Seq<int>>,
        player: Position,
        max_turns: int,
    ) -> GameStateView {
        GameStateView { h, w, max_turns, turn: 0, score: 0, points, player }
    }

    /// The state that `GameState::new` makes. The generator seeded with `seed` first fills
    /// the board column by column, then draws the mover's row, then its column.
    pub open spec fn initial(h: nat, w: nat, max_turns: int, seed: u64) -> GameStateView {
        let filled = after_points(seeded_state(seed), w * h);
        let row = index_draw(filled, 0, h as int, usize::BITS as int);
        let column = index_draw(row.1, 0, w as int, usize::BITS as int);
        GameStateView::starting(
            h,
            w,
            drawn_grid(seeded_state(seed), w, h),
            Position { y: row.0, x: column.0 },
            max_turns,
        )
    }

    /// A game can start on a board of this size with the mover on `player`: the mover
    /// stands on the board, and the points of a full board fit the score.
    pub open spec fn can_start(h: nat, w: nat, player: Position) -> bool {
        &&& in_bounds(h, w, player)
        &&& 9 * w * h <= i32::MAX
    }
}

/// A turn keeps the state valid, counts one turn without passing the limit, moves the
/// mover by one cell, never lowers the score, and leaves the reached cell empty. What
/// the score gains the board loses.
pub proof fn lemma_advance(s: GameStateView, action: Action)
    requires
        s.valid(),
        !s.is_game_over(),
        s.valid_actions().contains(action),
    ensures
        s.advance(action).valid(),
        s.advance(action).same_game(s),
        s.advance(action).turn == s.turn + 1,
        s.advance(action).turn <= s.max_turns,
        s.advance(action).turns_left() == s.turns_left() - 1,
        s.advance(action).score >= s.score,
        s.advance(action).score + grid_total(s.advance(action).points) == s.score + grid_total(
            s.points,
        ),
        s.advance(action).value_at(s.advance(action).player) == 0,
        s.advance(action).valid_actions().len() > 0,
{
    let to = action.destination(s.player);
    lemma_grid_cleared(s.points, s.w, s.h, to.x, to.y);
}

/// Stepping onto an empty cell collects nothing.
pub proof fn lemma_advance_empty(s: GameStateView, action: Action)
    requires
        s.valid(),
        s.valid_actions().contains(action),
        s.value_at(action.destination(s.player)) == 0,
    ensures
        s.advance(action).score == s.score,
        s.advance(action).points == s.points,
{
    assert(s.advance(action).points =~~= s.points);
}

/// In a valid state the score is not negative; where the turn limit is not negative
/// either, the turn never passes it, so the game is over exactly when both are equal.
pub proof fn lemma_turn_bounded(s: GameStateView)
    requires
        s.valid(),
        0 <= s.max_turns,
    ensures
        0 <= s.score,
        0 <= s.turn <= s.max_turns,
        s.is_game_over() <==> s.turn == s.max_turns,
{
}

/// The game: a board, the mover on it, the turn and the score.
pub struct GameState {
    h: usize,
    w: usize,
    score: i32,
    board: Board,
    max_turns: i32,
    turn: i32,
    player: Player,
}

impl View for GameState {
    type V = GameStateView;

    closed spec fn view(&self) -> GameStateView {
        GameStateView {
            h: self.h as nat,
            w: self.w as nat,
            max_turns: self.max_turns as int,
            turn: self.turn as int,
            score: self.score as int,
            points: self.board@,
            player: Position { y: self.player.y as int, x: self.player.x as int },
        }
    }
}

impl GameState {
    /// The board is stored with one line for each column.
    pub closed spec fn shaped(&self) -> bool {
        &&& self.board.spec_lines() == self.w
        &&& self.board.spec_width() == self.h
    }

    /// A new game on a board of `h` rows and `w` columns, with `max_turns` turns to play.
    /// The generator seeded with `seed` gives the values of the board and the cell the
    /// mover starts on.
    ///
    /// The mover needs a cell to stand on, and the points of a full board must fit the
    /// score.
    pub fn new(h: usize, w: usize, max_turns: i32, seed: u64) -> (state: Self)
        requires
            h > 0,
            w > 0,
            9 * h * w <= i32::MAX,
        ensures
            state.wf(),
            state@ == GameStateView::initial(h as nat, w as nat, max_turns as int, seed),
    {
        let mut rng = seeded_rng(seed);
        let board = Board::seeded(&mut rng, w, h);
        let y = gen_index(&mut rng, 0, h);
        let x = gen_index(&mut rng, 0, w);
        assert(9 * w * h == 9 * h * w) by (nonlinear_arith);
        GameState::with_board(board, y, x, max_turns).unwrap()
    }

    /// A new game on the given board, one line of it for each column, with the mover in
    /// row `y` and column `x` and `max_turns` turns to play; `None` where the mover
    /// would not stand on the board or the points of a full board would not fit the
    /// score.
    pub fn with_board(board: Board, y: usize, x: usize, max_turns: i32) -> (state: Option<Self>)
        requires
            board.wf(),
        ensures
            state is Some <==> GameStateView::can_start(
                board.spec_width(),
                board.spec_lines(),
                Position { y: y as int, x: x as int },
            ),
            state is Some ==> state->0.wf() && state->0@ == GameStateView::starting(
                board.spec_width(),
                board.spec_lines(),
                board@,
                Position { y: y as int, x: x as int },
                max_turns as int,
            ),
    {
        let h = board.width();
        let w = board.lines();
        if !board.fits_score() || y >= h || x >= w {
            return None;
        }
        let state = GameState { h, w, score: 0, board, max_turns, turn: 0, player: Player { y, x } };
        proof {
            lemma_grid_bounds(state@.points, w as nat, h as nat);
        }
        Some(state)
    }

    pub fn h(&self) -> (h: usize)
        ensures
            h == self@.h,
    {
        self.h
    }

    pub fn w(&self) -> (w: usize)
        ensures
            w == self@.w,
    {
        self.w
    }

    pub fn max_turns(&self) -> (max_turns: i32)
        ensures
            max_turns == self@.max_turns,
    {
        self.max_turns
    }

    pub fn turn(&self) -> (turn: i32)
        ensures
            turn == self@.turn,
    {
        self.turn
    }

    pub fn score(&self) -> (score: i32)
        ensures
            score == self@.score,
    {
        self.score
    }

    /// The row the mover stands in.
    pub fn y(&self) -> (y: usize)
        ensures
            y == self@.player.y,
    {
        self.player.y
    }

    /// The column the mover stands in.
    pub fn x(&self) -> (x: usize)
        ensures
            x == self@.player.x,
    {
        self.player.x
    }

    /// The value left in row `y`, column `x`.
    pub fn point(&self, y: usize, x: usize) -> (value: i32)
        requires
            self.wf(),
            y < self@.h,
            x < self@.w,
        ensures
            value == self@.value_at(Position { y: y as int, x: x as int }),
    {
        self.board.get(x, y)
    }

    /// Row `y` of the board as it is drawn: `@` for the cell under the mover, the digit
    /// of its value for a cell with points left, `.` for an empty one.
    pub fn draw_row(&self, y: usize) -> (row: Vec<char>)
        requires
            self.wf(),
            y < self@.h,
        ensures
            row@ == self@.row_drawn(y as int),
    {
        let mut row: Vec<char> = Vec::new();
        let mut x: usize = 0;
        while x < self.w
            invariant
                x <= self.w,
                self.wf(),
                y < self@.h,
                row@.len() == x,
                forall|k: int| 0 <= k < x ==> #[trigger] row@[k] == self@.row_drawn(y as int)[k],
            decreases self.w - x,
        {
            let occupied = x == self.player.x && y == self.player.y;
            let c = cell_glyph(occupied, self.board.get(x, y));
            row.push(c);
            x += 1;
        }
        row
    }
}

impl GameStateBase<Action> for GameState {
    open spec fn wf(&self) -> bool {
        self.shaped() && self@.valid()
    }

    open spec fn spec_is_game_over(&self) -> bool {
        self@.is_game_over()
    }

    open spec fn spec_valid_actions(&self) -> Seq<Action> {
        self@.valid_actions()
    }

    open spec fn turns_left(&self) -> nat {
        self@.turns_left()
    }

    open spec fn spec_score(&self) -> int {
        self@.score
    }

    fn is_game_over(&self) -> (over: bool) {
        self.turn >= self.max_turns
    }

    fn valid_actions(&self) -> (actions: Vec<Action>) {
        let mut actions = Vec::with_capacity(4);
        if self.player.y > 0 {
            actions.push(Action::Up);
        }
        if self.player.y < self.h - 1 {
            actions.push(Action::Down);
        }
        if self.player.x > 0 {
            actions.push(Action::Left);
        }
        if self.player.x < self.w - 1 {
            actions.push(Action::Right);
        }
        actions
    }

    fn advance(&mut self, action: Action)
        ensures
            final(self)@ == old(self)@.advance(action),
    {
        proof {
            let to = action.destination(self@.player);
            lemma_grid_cleared(self@.points, self@.w, self@.h, to.x, to.y);
        }
        self.turn += 1;
        match action {
            Action::Up => {
                self.player.y -= 1;
            },
            Action::Down => {
                self.player.y += 1;
            },
            Action::Left => {
                self.player.x -= 1;
            },
            Action::Right => {
                self.player.x += 1;
            },
        }
        let point = self.board.take(self.player.x, self.player.y);
        self.score += point;
    }
}

impl Clone for GameState {
    fn clone(&self) -> (copy: Self)
        ensures
            copy@ == self@,
            copy.wf() == self.wf(),
    {
        GameState {
            h: self.h,
            w: self.w,
            score: self.score,
            board: self.board.clone(),
            max_turns: self.max_turns,
            turn: self.turn,
            player: self.player,
        }
    }
}

} // verus!
