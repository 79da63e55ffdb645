//! A board shared by several movers that each step to their richest neighbouring cell.

use crate::action::{in_bounds, last_best, lemma_last_best, moves, Position};
pub use crate::action::Action;
use crate::board::{
    cell_glyph, drawn_grid, glyph, grid_cleared, grid_total, grid_valid, lemma_grid_bounds,
    lemma_grid_cleared, Board,
};
use crate::rng::{gen_index, generator_state, index_draw, seeded_rng, seeded_state};
use rand::rngs::StdRng;
use vstd::prelude::*;

pub mod hillclimb;
pub mod random;
pub mod simulated_annealing;

verus! {

/// A strategy that plays a whole game.
pub trait Agent {
    /// The agent is set up so that it can play.
    spec fn ready(&self) -> bool;

    /// Plays from `state` and returns the state the agent ends with. Whatever the strategy,
    /// the result is a state of the same game that has scored at least as much.
    fn play_game(&mut self, state: &State) -> (last: State)
        requires
            old(self).ready(),
            state.wf(),
            state@.characters.len() > 0,
            state@.can_move(),
        ensures
            final(self).ready(),
            last.wf(),
            last@.same_game(state@),
            last@.score >= state@.score,
            last@.turn >= state@.turn,
    ;
}

/// One mover on the board.
#[derive(Clone, Copy, Debug)]
pub struct Character {
    y: usize,
    x: usize,
}

impl View for Character {
    type V = Position;

    closed spec fn view(&self) -> Position {
        Position { y: self.y as int, x: self.x as int }
    }
}

impl Character {
    /// The row the mover stands in.
    pub fn y(&self) -> (y: usize)
        ensures
            y == self@.y,
    {
        self.y
    }

    /// The column the mover stands in.
    pub fn x(&self) -> (x: usize)
        ensures
            x == self@.x,
    {
        self.x
    }
}

/// What a `State` stands for.
pub struct StateView {
    /// Number of rows.
    pub h: nat,
    /// Number of columns.
    pub w: nat,
    /// The turn at which the game is over.
    pub max_turn: int,
    /// Rounds played so far.
    pub turn: int,
    /// Points collected so far.
    pub score: int,
    /// `points[y][x]` is the value left in row `y`, column `x`.
    pub points: Seq<Seq<int>>,
    /// Where each mover stands.
    pub characters: Seq<Position>,
}

impl StateView {
    /// The invariant of every state: the board has the stated shape, every mover stands on
    /// it, the turn has not passed the limit, and the points collected so far together
    /// with those still on the board fit the score's type.
    pub open spec fn valid(self) -> bool {
        &&& grid_valid(self.points, self.h, self.w)
        &&& forall|i: int|
            0 <= i < self.characters.len() ==> in_bounds(self.h, self.w, #[trigger] self.characters[i])
        &&& 0 <= self.turn
        &&& (self.turn <= self.max_turn || self.turn == 0)
        &&& 0 <= self.score
        &&& self.score + grid_total(self.points) <= i32::MAX
    }

    /// Same board size, turn limit and number of movers.
    pub open spec fn same_game(self, other: StateView) -> bool {
        &&& self.h == other.h
        &&& self.w == other.w
        &&& self.max_turn == other.max_turn
        &&& self.characters.len() == other.characters.len()
    }

    pub open spec fn is_game_over(self) -> bool {
        self.turn >= self.max_turn
    }

    /// The moves that keep mover `i` on the board, in the order up, down, left, right.
    pub open spec fn valid_actions(self, i: int) -> Seq<Action> {
        moves(self.h, self.w, self.characters[i])
    }

    /// Every mover has somewhere to go.
    pub open spec fn can_move(self) -> bool {
        self.characters.len() > 0 ==> self.h > 1 || self.w > 1
    }

    /// The value left in cell `p`.
    pub open spec fn value_at(self, p: Position) -> int {
        self.points[p.y][p.x]
    }

    /// Mover `i` lands on `p`: the value of the cell goes to the score and the cell is
    /// emptied.
    pub open spec fn collect(self, i: int, p: Position) -> StateView {
        StateView {
            score: self.score + self.value_at(p),
            points: grid_cleared(self.points, p.y, p.x),
            characters: self.characters.update(i, p),
            ..self
        }
    }

    /// What each valid action of mover `i` would collect, in the order of `valid_actions`.
    pub open spec fn gains(self, i: int) -> Seq<int> {
        Seq::new(
            self.valid_actions(i).len(),
            |k: int| self.value_at(self.valid_actions(i)[k].destination(self.characters[i])),
        )
    }

    /// The valid action of mover `i` that collects most; of several such, the last.
    pub open spec fn best_action(self, i: int) -> Action {
        self.valid_actions(i)[last_best(self.gains(i))]
    }

    /// Mover `i` steps to its richest neighbouring cell and collects it.
    pub open spec fn advance_character(self, i: int) -> StateView {
        self.collect(i, self.best_action(i).destination(self.characters[i]))
    }

    /// The first `n` movers have stepped, one after the other.
    pub open spec fn advance_characters(self, n: nat) -> StateView
        decreases n,
    {
        if n == 0 {
            self
        } else {
            self.advance_characters((n - 1) as nat).advance_character(n - 1)
        }
    }

    /// One round: every mover steps once, in order, then the turn is counted.
    pub open spec fn advance(self) -> StateView {
        let moved = self.advance_characters(self.characters.len());
        StateView { turn: moved.turn + 1, ..moved }
    }

    /// Some mover stands on cell `p`.
    pub open spec fn occupied(self, p: Position) -> bool {
        exists|i: int| 0 <= i < self.characters.len() && #[trigger] self.characters[i] == p
    }

    /// Row `y` of the board as it is drawn, one character for each cell.
    pub open spec fn row_drawn(self, y: int) -> Seq<char> {
        Seq::new(
            self.w,
            |x: int| glyph(self.occupied(Position { y, x }), self.value_at(Position { y, x })),
        )
    }

    /// The number of rounds until the game is over.
    pub open spec fn turns_left(self) -> nat {
        if self.turn >= self.max_turn {
            0
        } else {
            (self.max_turn - self.turn) as nat
        }
    }

    /// The state after `rounds` more rounds.
    pub open spec fn played(self, rounds: nat) -> StateView
        decreases rounds,
    {
        if rounds == 0 {
            self
        } else {
            self.played((rounds - 1) as nat).advance()
        }
    }

    /// The state at the end of the game, every round played as `advance` plays it.
    pub open spec fn played_out(self) -> StateView {
        self.played(self.turns_left())
    }

    /// The cell that a generator in state `source` draws, first its column and then its
    /// row, and the state the generator is left in.
    pub open spec fn drawn_cell(self, source: Seq<u8>) -> (Position, Seq<u8>) {
        let column = index_draw(source, 0, self.w as int, usize::BITS as int);
        let row = index_draw(column.1, 0, self.h as int, usize::BITS as int);
        (Position { y: row.0, x: column.0 }, row.1)
    }

    /// The neighbouring state that a generator in state `source` draws: one mover, drawn
    /// first, lands on a cell drawn next. With it comes the state the generator is left
    /// in.
    pub open spec fn relocated(self, source: Seq<u8>) -> (StateView, Seq<u8>) {
        let mover = index_draw(source, 0, self.characters.len() as int, usize::BITS as int);
        let cell = self.drawn_cell(mover.1);
        (self.collect(mover.0, cell.0), cell.1)
    }

    /// The state in which the first `n` movers have each landed on a cell drawn for them,
    /// one after the other, and the state the generator is left in.
    pub open spec fn scattered(self, source: Seq<u8>, n: nat) -> (StateView, Seq<u8>)
        decreases n,
    {
        if n == 0 {
            (self, source)
        } else {
            let before = self.scattered(source, (n - 1) as nat);
            let cell = before.0.drawn_cell(before.1);
            (before.0.collect(n - 1, cell.0), cell.1)
        }
    }

    /// The state at the start of a game on the given board: nothing played, nothing
    /// scored, and every mover in the top left corner.
    pub open spec fn starting(
        h: nat,
        w: nat,
        points: Seq<Seq<int>>,
        num_characters: nat,
        max_turn: int,
    ) -> StateView {
        StateView {
            h,
            w,
            max_turn,
            turn: 0,
            score: 0,
            points,
            characters: Seq::new(num_characters, |i: int| Position { y: 0, x: 0 }),
        }
    }

    /// The state that `State::new` makes: the start of a game on a board filled row by
    /// row from the generator seeded with `seed`.
    pub open spec fn initial(seed: u64, h: nat, w: nat, num_characters: nat, max_turn: int) -> StateView {
        StateView::starting(h, w, drawn_grid(seeded_state(seed), h, w), num_characters, max_turn)
    }

    /// A game on a board of this size can start: movers have a cell to stand on, and the
    /// points of a full board fit the score.
    pub open spec fn can_start(h: nat, w: nat, num_characters: nat) -> bool {
        &&& num_characters > 0 ==> h > 0 && w > 0
        &&& 9 * h * w <= i32::MAX
    }
}

/// Landing on a cell keeps the state valid, never lowers the score, moves only the mover
/// that landed, and leaves the cell empty. What the score gains the board loses.
pub proof fn lemma_collect(s: StateView, i: int, p: Position)
    requires
        s.valid(),
        0 <= i < s.characters.len(),
        in_bounds(s.h, s.w, p),
    ensures
        s.collect(i, p).valid(),
        s.collect(i, p).same_game(s),
        s.collect(i, p).turn == s.turn,
        s.collect(i, p).score >= s.score,
        s.collect(i, p).score + grid_total(s.collect(i, p).points) == s.score + grid_total(
            s.points,
        ),
        s.collect(i, p).value_at(p) == 0,
        s.collect(i, p).characters[i] == p,
        forall|j: int|
            0 <= j < s.characters.len() && j != i ==> s.collect(i, p).characters[j]
                == s.characters[j],
{
    lemma_grid_cleared(s.points, s.h, s.w, p.y, p.x);
}

/// Landing on a cell a second time collects nothing: the score stays what the first
/// landing made it.
pub proof fn lemma_collect_twice(s: StateView, i: int, j: int, p: Position)
    requires
        s.valid(),
        0 <= i < s.characters.len(),
        0 <= j < s.characters.len(),
        in_bounds(s.h, s.w, p),
    ensures
        s.collect(i, p).collect(j, p).score == s.collect(i, p).score,
        s.collect(i, p).collect(j, p).points == s.collect(i, p).points,
{
    let once = s.collect(i, p);
    assert(once.collect(j, p).points =~~= once.points);
}

/// The step of mover `i` leads to a neighbouring cell on the board that holds at least as
/// much as any other such cell; the state stays valid and the score does not fall.
pub proof fn lemma_advance_character(s: StateView, i: int)
    requires
        s.valid(),
        0 <= i < s.characters.len(),
        s.valid_actions(i).len() > 0,
    ensures
        s.valid_actions(i).contains(s.best_action(i)),
        in_bounds(s.h, s.w, s.best_action(i).destination(s.characters[i])),
        forall|a: Action|
            s.valid_actions(i).contains(a) ==> s.value_at(
                #[trigger] a.destination(s.characters[i]),
            ) <= s.value_at(s.best_action(i).destination(s.characters[i])),
        s.advance_character(i).valid(),
        s.advance_character(i).same_game(s),
        s.advance_character(i).turn == s.turn,
        s.advance_character(i).score >= s.score,
        forall|j: int|
            0 <= j < s.characters.len() && j != i ==> s.advance_character(i).characters[j]
                == s.characters[j],
{
    let actions = s.valid_actions(i);
    let gains = s.gains(i);
    lemma_last_best(gains);
    let best = last_best(gains);
    assert forall|a: Action| actions.contains(a) implies s.value_at(
        #[trigger] a.destination(s.characters[i]),
    ) <= s.value_at(s.best_action(i).destination(s.characters[i])) by {
        let k = choose|k: int| 0 <= k < actions.len() && actions[k] == a;
        assert(gains[k] <= gains[best]);
    }
    lemma_collect(s, i, s.best_action(i).destination(s.characters[i]));
}

/// Stepping the first `n` movers keeps the state valid and the game the same, does not
/// lower the score and leaves the later movers where they were.
pub proof fn lemma_advance_characters(s: StateView, n: nat)
    requires
        s.valid(),
        s.can_move(),
        n <= s.characters.len(),
    ensures
        s.advance_characters(n).valid(),
        s.advance_characters(n).same_game(s),
        s.advance_characters(n).turn == s.turn,
        s.advance_characters(n).score >= s.score,
        forall|j: int|
            n <= j < s.characters.len() ==> s.advance_characters(n).characters[j]
                == s.characters[j],
    decreases n,
{
    if n > 0 {
        lemma_advance_characters(s, (n - 1) as nat);
        let before = s.advance_characters((n - 1) as nat);
        lemma_advance_character(before, n - 1);
    }
}

/// A round keeps the state valid, counts one turn without passing the limit, and does
/// not lower the score.
pub proof fn lemma_advance(s: StateView)
    requires
        s.valid(),
        s.can_move(),
        !s.is_game_over(),
    ensures
        s.advance().valid(),
        s.advance().same_game(s),
        s.advance().turn == s.turn + 1,
        s.advance().turn <= s.max_turn,
        s.advance().score >= s.score,
{
    lemma_advance_characters(s, s.characters.len());
}

/// Playing on for no more rounds than are left keeps the state valid and the game the
/// same, counts the rounds, and does not lower the score.
pub proof fn lemma_played(s: StateView, rounds: nat)
    requires
        s.valid(),
        s.can_move(),
        rounds <= s.turns_left(),
    ensures
        s.played(rounds).valid(),
        s.played(rounds).can_move(),
        s.played(rounds).same_game(s),
        s.played(rounds).turn == s.turn + rounds,
        s.played(rounds).score >= s.score,
        s.played(rounds).turns_left() == s.turns_left() - rounds,
    decreases rounds,
{
    if rounds > 0 {
        lemma_played(s, (rounds - 1) as nat);
        lemma_advance(s.played((rounds - 1) as nat));
    }
}

/// In a valid state the score is not negative; where the turn limit is not negative
/// either, the turn never passes it, so the game is over exactly when both are equal.
pub proof fn lemma_turn_bounded(s: StateView)
    requires
        s.valid(),
        0 <= s.max_turn,
    ensures
        0 <= s.score,
        0 <= s.turn <= s.max_turn,
        s.is_game_over() <==> s.turn == s.max_turn,
{
}

/// The game: a board, the movers on it, the turn and the score.
pub struct State {
    h: usize,
    w: usize,
    max_turn: i32,
    turn: i32,
    score: i32,
    board: Board,
    characters: Vec<Character>,
}

impl View for State {
    type V = StateView;

    closed spec fn view(&self) -> StateView {
        StateView {
            h: self.h as nat,
            w: self.w as nat,
            max_turn: self.max_turn as int,
            turn: self.turn as int,
            score: self.score as int,
            points: self.board@,
            characters: Seq::new(self.characters@.len(), |i: int| self.characters@[i]@),
        }
    }
}

impl State {
    /// The board is stored with one line for each row.
    pub closed spec fn shaped(&self) -> bool {
        &&& self.board.spec_lines() == self.h
        &&& self.board.spec_width() == self.w
    }

    /// The state is one that the game can be in.
    pub open spec fn wf(&self) -> bool {
        self.shaped() && self@.valid()
    }

    /// A new game on a board of `h` rows and `w` columns whose values are drawn from the
    /// generator seeded with `random_seed`, with `num_characters` movers in the top left
    /// corner and `max_turn` rounds to play.
    ///
    /// Movers need a cell to stand on, and the points of a full board must fit the score.
    pub fn new(random_seed: u64, h: usize, w: usize, num_characters: usize, max_turn: i32) -> (state:
        Self)
        requires
            StateView::can_start(h as nat, w as nat, num_characters as nat),
        ensures
            state.wf(),
            state@ == StateView::initial(
                random_seed,
                h as nat,
                w as nat,
                num_characters as nat,
                max_turn as int,
            ),
    {
        let mut rng = seeded_rng(random_seed);
        let board = Board::seeded(&mut rng, h, w);
        State::with_board(board, num_characters, max_turn).unwrap()
    }

    /// A new game on the given board, one line of it for each row, with `num_characters`
    /// movers in the top left corner and `max_turn` rounds to play; `None` where a game
    /// on a board of this size cannot start.
    pub fn with_board(board: Board, num_characters: usize, max_turn: i32) -> (state: Option<Self>)
        requires
            board.wf(),
        ensures
            state is Some <==> StateView::can_start(
                board.spec_lines(),
                board.spec_width(),
                num_characters as nat,
            ),
            state is Some ==> state->0.wf() && state->0@ == StateView::starting(
                board.spec_lines(),
                board.spec_width(),
                board@,
                num_characters as nat,
                max_turn as int,
            ),
    {
        let h = board.lines();
        let w = board.width();
        if !board.fits_score() || (num_characters > 0 && (h == 0 || w == 0)) {
            return None;
        }
        let mut characters: Vec<Character> = Vec::new();
        let mut i: usize = 0;
        while i < num_characters
            invariant
                i <= num_characters,
                characters@.len() == i,
                forall|k: int| 0 <= k < i ==> (#[trigger] characters@[k])@ == (Position { y: 0, x: 0 }),
            decreases num_characters - i,
        {
            characters.push(Character { y: 0, x: 0 });
            i += 1;
        }
        let state = State { h, w, max_turn, turn: 0, score: 0, board, characters };
        proof {
            lemma_grid_bounds(state@.points, h as nat, w as nat);
            assert(state@.characters =~= StateView::starting(
                h as nat,
                w as nat,
                board@,
                num_characters as nat,
                max_turn as int,
            ).characters);
        }
        Some(state)
    }

    pub fn h(&self) -> (h: usize)
        ensures
            h == self@.h,
    {
        self.h
    }

    pub fn w(&self) -> (w: usize)
        ensures
            w == self@.w,
    {
        self.w
    }

    pub fn max_turn(&self) -> (max_turn: i32)
        ensures
            max_turn == self@.max_turn,
    {
        self.max_turn
    }

    pub fn num_characters(&self) -> (n: usize)
        ensures
            n == self@.characters.len(),
    {
        self.characters.len()
    }

    pub fn turn(&self) -> (turn: i32)
        ensures
            turn == self@.turn,
    {
        self.turn
    }

    pub fn score(&self) -> (score: i32)
        ensures
            score == self@.score,
    {
        self.score
    }

    pub fn characters(&self) -> (characters: &[Character])
        ensures
            characters@.len() == self@.characters.len(),
            forall|i: int|
                0 <= i < characters@.len() ==> (#[trigger] characters@[i])@ == self@.characters[i],
    {
        self.characters.as_slice()
    }

    /// The value left in row `y`, column `x`.
    pub fn point(&self, y: usize, x: usize) -> (value: i32)
        requires
            self.wf(),
            y < self@.h,
            x < self@.w,
        ensures
            value == self@.value_at(Position { y: y as int, x: x as int }),
    {
        self.board.get(y, x)
    }

    /// Whether a mover stands in row `y`, column `x`.
    pub fn is_occupied(&self, y: usize, x: usize) -> (occupied: bool)
        ensures
            occupied == self@.occupied(Position { y: y as int, x: x as int }),
    {
        let ghost p = Position { y: y as int, x: x as int };
        let mut i: usize = 0;
        while i < self.characters.len()
            invariant
                i <= self.characters@.len(),
                p == (Position { y: y as int, x: x as int }),
                forall|k: int| 0 <= k < i ==> #[trigger] self@.characters[k] != p,
            decreases self.characters@.len() - i,
        {
            if self.characters[i].y == y && self.characters[i].x == x {
                assert(self@.characters[i as int] == p);
                return true;
            }
            i += 1;
        }
        false
    }

    /// Row `y` of the board as it is drawn: `@` for a cell under a mover, the digit of
    /// its value for a cell with points left, `.` for an empty one.
    pub fn draw_row(&self, y: usize) -> (row: Vec<char>)
        requires
            self.wf(),
            y < self@.h,
        ensures
            row@ == self@.row_drawn(y as int),
    {
        let mut row: Vec<char> = Vec::new();
        let mut x: usize = 0;
        while x < self.w
            invariant
                x <= self.w,
                self.wf(),
                y < self@.h,
                row@.len() == x,
                forall|k: int| 0 <= k < x ==> #[trigger] row@[k] == self@.row_drawn(y as int)[k],
            decreases self.w - x,
        {
            let c = cell_glyph(self.is_occupied(y, x), self.board.get(y, x));
            row.push(c);
            x += 1;
        }
        row
    }

    pub fn is_game_over(&self) -> (over: bool)
        ensures
            over == self@.is_game_over(),
    {
        self.turn >= self.max_turn
    }

    /// The moves open to mover `character_index`, in the order up, down, left, right.
    pub fn valid_actions(&self, character_index: usize) -> (actions: Vec<Action>)
        requires
            self.wf(),
            character_index < self@.characters.len(),
        ensures
            actions@ == self@.valid_actions(character_index as int),
    {
        let character = &self.characters[character_index];
        assert(in_bounds(self@.h, self@.w, self@.characters[character_index as int]));
        let mut actions = Vec::with_capacity(4);
        if character.y > 0 {
            actions.push(Action::Up);
        }
        if character.y < self.h - 1 {
            actions.push(Action::Down);
        }
        if character.x > 0 {
            actions.push(Action::Left);
        }
        if character.x < self.w - 1 {
            actions.push(Action::Right);
        }
        actions
    }

    /// Puts mover `i` on column `x` of row `y`. The mover collects the cell as if it had
    /// stepped there.
    pub fn set_character_coord(&mut self, i: usize, x: usize, y: usize)
        requires
            old(self).wf(),
            i < old(self)@.characters.len(),
            y < old(self)@.h,
            x < old(self)@.w,
        ensures
            final(self).wf(),
            final(self)@ == old(self)@.collect(i as int, Position { y: y as int, x: x as int }),
            final(self)@.score >= old(self)@.score,
    {
        self.land(i, y, x);
    }

    /// One round: every mover steps once, in order, then the turn is counted.
    pub fn advance(&mut self)
        requires
            old(self).wf(),
            old(self)@.can_move(),
            !old(self)@.is_game_over(),
        ensures
            final(self).wf(),
            final(self)@ == old(self)@.advance(),
            final(self)@.same_game(old(self)@),
            final(self)@.turn == old(self)@.turn + 1,
            final(self)@.score >= old(self)@.score,
    {
        let n = self.num_characters();
        let mut i: usize = 0;
        while i < n
            invariant
                i <= n,
                n == old(self)@.characters.len(),
                old(self)@.valid(),
                old(self)@.can_move(),
                self.wf(),
                self@ == old(self)@.advance_characters(i as nat),
            decreases n - i,
        {
            proof {
                lemma_advance_characters(old(self)@, i as nat);
            }
            self.advance_character(i);
            i += 1;
        }
        proof {
            lemma_advance(old(self)@);
        }
        self.turn += 1;
    }

    /// Plays the game to its end.
    pub fn play_out(&mut self)
        requires
            old(self).wf(),
            old(self)@.can_move(),
        ensures
            final(self).wf(),
            final(self)@ == old(self)@.played_out(),
            final(self)@.is_game_over(),
            final(self)@.same_game(old(self)@),
            final(self)@.score >= old(self)@.score,
            final(self)@.turn >= old(self)@.turn,
    {
        let ghost rounds: nat = 0;
        while !self.is_game_over()
            invariant
                old(self)@.valid(),
                old(self)@.can_move(),
                rounds <= old(self)@.turns_left(),
                self.wf(),
                self@ == old(self)@.played(rounds),
            decreases old(self)@.turns_left() - rounds,
        {
            proof {
                lemma_played(old(self)@, rounds);
                rounds = rounds + 1;
            }
            self.advance();
        }
        proof {
            lemma_played(old(self)@, rounds);
        }
    }

    /// Draws a cell of the board, first its column and then its row, and returns them in
    /// that order.
    pub fn draw_cell(&self, rng: &mut StdRng) -> (cell: (usize, usize))
        requires
            self.wf(),
            self@.h > 0,
            self@.w > 0,
        ensures
            (Position { y: cell.1 as int, x: cell.0 as int }) == self@.drawn_cell(
                generator_state(*old(rng)),
            ).0,
            generator_state(*final(rng)) == self@.drawn_cell(generator_state(*old(rng))).1,
            cell.0 < self@.w,
            cell.1 < self@.h,
    {
        let x = gen_index(rng, 0, self.w);
        let y = gen_index(rng, 0, self.h);
        (x, y)
    }

    /// A copy of the state in which one mover, drawn from the generator, has landed on a
    /// cell drawn from it.
    pub fn neighbor(&self, rng: &mut StdRng) -> (neighbor: State)
        requires
            self.wf(),
            self@.characters.len() > 0,
        ensures
            neighbor.wf(),
            neighbor@ == self@.relocated(generator_state(*old(rng))).0,
            generator_state(*final(rng)) == self@.relocated(generator_state(*old(rng))).1,
            neighbor@.same_game(self@),
            neighbor@.turn == self@.turn,
            neighbor@.score >= self@.score,
    {
        let mut neighbor = self.clone();
        assert(in_bounds(self@.h, self@.w, self@.characters[0]));
        let mover = gen_index(rng, 0, self.num_characters());
        let (x, y) = self.draw_cell(rng);
        neighbor.set_character_coord(mover, x, y);
        neighbor
    }

    /// Mover `i` steps to the neighbouring cell that holds most, the last such in the
    /// order up, down, left, right, and collects it.
    pub fn advance_character(&mut self, i: usize)
        requires
            old(self).wf(),
            i < old(self)@.characters.len(),
            old(self)@.valid_actions(i as int).len() > 0,
        ensures
            final(self).wf(),
            final(self)@ == old(self)@.advance_character(i as int),
            final(self)@.score >= old(self)@.score,
    {
        let actions = self.valid_actions(i);
        let here = self.characters[i];
        let ghost gains = self@.gains(i as int);
        let mut best: usize = 0;
        let mut k: usize = 1;
        while k < actions.len()
            invariant
                1 <= k <= actions@.len(),
                self.wf(),
                self@ == old(self)@,
                i < self@.characters.len(),
                here@ == self@.characters[i as int],
                actions@ == self@.valid_actions(i as int),
                gains == self@.gains(i as int),
                forall|a: Action|
                    actions@.contains(a) ==> in_bounds(
                        self@.h,
                        self@.w,
                        #[trigger] a.destination(here@),
                    ),
                best == last_best(gains.take(k as int)),
                0 <= best < k,
            decreases actions@.len() - k,
        {
            let (ny, nx) = step(here, actions[k]);
            let (by, bx) = step(here, actions[best]);
            let candidate = self.board.get(ny, nx);
            let leader = self.board.get(by, bx);
            assert(gains.take(k + 1).drop_last() =~= gains.take(k as int));
            if candidate >= leader {
                best = k;
            }
            k += 1;
        }
        assert(gains.take(k as int) =~= gains);
        let (y, x) = step(here, actions[best]);
        self.land(i, y, x);
    }

    /// Mover `i` lands on row `y`, column `x`.
    fn land(&mut self, i: usize, y: usize, x: usize)
        requires
            old(self).wf(),
            i < old(self)@.characters.len(),
            y < old(self)@.h,
            x < old(self)@.w,
        ensures
            final(self).wf(),
            final(self)@ == old(self)@.collect(i as int, Position { y: y as int, x: x as int }),
            final(self)@.score >= old(self)@.score,
    {
        proof {
            lemma_grid_cleared(old(self)@.points, old(self)@.h, old(self)@.w, y as int, x as int);
        }
        self.characters[i] = Character { y, x };
        let value = self.board.take(y, x);
        self.score += value;
        assert(self@.characters =~= old(self)@.characters.update(
            i as int,
            Position { y: y as int, x: x as int },
        ));
    }
}

impl Clone for State {
    fn clone(&self) -> (copy: Self)
        ensures
            copy@ == self@,
            copy.wf() == self.wf(),
    {
        let copy = State {
            h: self.h,
            w: self.w,
            max_turn: self.max_turn,
            turn: self.turn,
            score: self.score,
            board: self.board.clone(),
            characters: self.characters.clone(),
        };
        copy
    }
}

/// The cell one step from where `from` stands.
fn step(from: Character, action: Action) -> (to: (usize, usize))
    requires
        0 <= action.destination(from@).y <= usize::MAX,
        0 <= action.destination(from@).x <= usize::MAX,
    ensures
        (Position { y: to.0 as int, x: to.1 as int }) == action.destination(from@),
{
    match action {
        Action::Up => (from.y - 1, from.x),
        Action::Down => (from.y + 1, from.x),
        Action::Left => (from.y, from.x - 1),
        Action::Right => (from.y, from.x + 1),
    }
}

} // verus!
