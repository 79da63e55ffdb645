//! The grid of point values that the movers collect.

use crate::rng::{gen_point, generator_state, point_draw};
use rand::rngs::StdRng;
use vstd::prelude::*;

verus! {

/// The smallest value of a fresh cell.
pub const POINT_LOW: i32 = 1;

/// One more than the largest value of a fresh cell.
pub const POINT_HIGH: i32 = 10;

/// The most cells that a board can have if the points of a full board are to fit the
/// score.
pub const MAX_CELLS: usize = 238_609_294;

/// The grid that lines of cells stand for.
pub open spec fn cells_grid(cells: Seq<Vec<i32>>) -> Seq<Seq<int>> {
    Seq::new(cells.len(), |i: int| Seq::new(cells[i]@.len(), |j: int| cells[i]@[j] as int))
}

/// The digits by which the values of cells are drawn.
pub open spec fn digits() -> Seq<char> {
    seq!['0', '1', '2', '3', '4', '5', '6', '7', '8', '9']
}

/// The character that draws a cell: `@` where a mover stands, the digit of its value
/// where any points are left, and `.` where none are.
pub open spec fn glyph(occupied: bool, value: int) -> char {
    if occupied {
        '@'
    } else if 0 < value <= 9 {
        digits()[value]
    } else {
        '.'
    }
}

/// The character that draws a cell holding `value`, under a mover or not.
pub fn cell_glyph(occupied: bool, value: i32) -> (c: char)
    ensures
        c == glyph(occupied, value as int),
{
    if occupied {
        '@'
    } else {
        match value {
            1 => '1',
            2 => '2',
            3 => '3',
            4 => '4',
            5 => '5',
            6 => '6',
            7 => '7',
            8 => '8',
            9 => '9',
            _ => '.',
        }
    }
}

/// The sum of the values of one line of cells.
pub open spec fn line_total(line: Seq<int>) -> int
    decreases line.len(),
{
    if line.len() == 0 {
        0
    } else {
        line_total(line.drop_last()) + line.last()
    }
}

/// The sum of the values of all cells of a grid.
pub open spec fn grid_total(grid: Seq<Seq<int>>) -> int
    decreases grid.len(),
{
    if grid.len() == 0 {
        0
    } else {
        grid_total(grid.drop_last()) + line_total(grid.last())
    }
}

/// A grid of `lines` lines of `width` cells each, every cell holding a value from 0 to 9.
pub open spec fn grid_valid(grid: Seq<Seq<int>>, lines: nat, width: nat) -> bool {
    &&& grid.len() == lines
    &&& forall|i: int| 0 <= i < lines ==> (#[trigger] grid[i]).len() == width
    &&& forall|i: int, j: int|
        0 <= i < lines && 0 <= j < width ==> 0 <= #[trigger] grid[i][j] <= 9
}

/// The grid with cell `j` of line `i` emptied.
pub open spec fn grid_cleared(grid: Seq<Seq<int>>, i: int, j: int) -> Seq<Seq<int>> {
    grid.update(i, grid[i].update(j, 0))
}

/// The state of a generator that started in `state` and has drawn `n` point values.
pub open spec fn after_points(state: Seq<u8>, n: nat) -> Seq<u8>
    decreases n,
{
    if n == 0 {
        state
    } else {
        point_draw(after_points(state, (n - 1) as nat), POINT_LOW as int, POINT_HIGH as int).1
    }
}

/// The `k`-th point value, counting from 0, that a generator starting in `state` draws.
pub open spec fn nth_point(state: Seq<u8>, k: nat) -> int {
    point_draw(after_points(state, k), POINT_LOW as int, POINT_HIGH as int).0
}

/// The grid that a generator starting in `state` fills line by line: cell `j` of line `i`
/// holds draw number `i * width + j`.
pub open spec fn drawn_grid(state: Seq<u8>, lines: nat, width: nat) -> Seq<Seq<int>> {
    Seq::new(lines, |i: int| Seq::new(width, |j: int| nth_point(state, (i * width + j) as nat)))
}

/// Replacing cell `j` of a line by `value` changes the line's total by the difference.
pub proof fn lemma_line_update(line: Seq<int>, j: int, value: int)
    requires
        0 <= j < line.len(),
    ensures
        line_total(line.update(j, value)) == line_total(line) - line[j] + value,
    decreases line.len(),
{
    let updated = line.update(j, value);
    if j == line.len() - 1 {
        assert(updated.drop_last() =~= line.drop_last());
    } else {
        assert(updated.drop_last() =~= line.drop_last().update(j, value));
        lemma_line_update(line.drop_last(), j, value);
    }
}

/// Replacing line `i` of a grid changes the grid's total by the difference of the lines'.
pub proof fn lemma_grid_update(grid: Seq<Seq<int>>, i: int, line: Seq<int>)
    requires
        0 <= i < grid.len(),
    ensures
        grid_total(grid.update(i, line)) == grid_total(grid) - line_total(grid[i]) + line_total(
            line,
        ),
    decreases grid.len(),
{
    let updated = grid.update(i, line);
    if i == grid.len() - 1 {
        assert(updated.drop_last() =~= grid.drop_last());
    } else {
        assert(updated.drop_last() =~= grid.drop_last().update(i, line));
        lemma_grid_update(grid.drop_last(), i, line);
    }
}

/// A line of values from 0 to 9 totals between 0 and 9 times its length.
pub proof fn lemma_line_bounds(line: Seq<int>)
    requires
        forall|j: int| 0 <= j < line.len() ==> 0 <= #[trigger] line[j] <= 9,
    ensures
        0 <= line_total(line) <= 9 * line.len(),
    decreases line.len(),
{
    if line.len() > 0 {
        lemma_line_bounds(line.drop_last());
    }
}

/// A valid grid totals between 0 and 9 times the number of its cells.
pub proof fn lemma_grid_bounds(grid: Seq<Seq<int>>, lines: nat, width: nat)
    requires
        grid_valid(grid, lines, width),
    ensures
        0 <= grid_total(grid) <= 9 * lines * width,
    decreases lines,
{
    if lines > 0 {
        let rest = grid.drop_last();
        lemma_grid_bounds(rest, (lines - 1) as nat, width);
        let last = grid.last();
        lemma_line_bounds(last);
        assert(9 * (lines - 1) * width + 9 * width == 9 * lines * width) by (nonlinear_arith);
    }
}

/// Emptying a cell of a valid grid leaves a valid grid whose total is smaller by the
/// value that the cell held. In particular no cell holds more than the grid's total.
pub proof fn lemma_grid_cleared(grid: Seq<Seq<int>>, lines: nat, width: nat, i: int, j: int)
    requires
        grid_valid(grid, lines, width),
        0 <= i < lines,
        0 <= j < width,
    ensures
        grid_valid(grid_cleared(grid, i, j), lines, width),
        grid_total(grid_cleared(grid, i, j)) == grid_total(grid) - grid[i][j],
        grid_cleared(grid, i, j)[i][j] == 0,
        0 <= grid[i][j] <= grid_total(grid),
{
    let cleared = grid_cleared(grid, i, j);
    lemma_line_update(grid[i], j, 0);
    lemma_grid_update(grid, i, grid[i].update(j, 0));
    lemma_grid_bounds(cleared, lines, width);
}

/// A grid of point values, stored line by line.
pub struct Board {
    lines: usize,
    width: usize,
    cells: Vec<Vec<i32>>,
}

impl View for Board {
    type V = Seq<Seq<int>>;

    /// The values of the cells: `self@[i][j]` is cell `j` of line `i`.
    closed spec fn view(&self) -> Seq<Seq<int>> {
        cells_grid(self.cells@)
    }
}

impl Board {
    /// The number of lines.
    pub closed spec fn spec_lines(&self) -> nat {
        self.lines as nat
    }

    /// The number of cells in each line.
    pub closed spec fn spec_width(&self) -> nat {
        self.width as nat
    }

    /// The board has the shape it claims and every cell holds a value from 0 to 9.
    pub open spec fn wf(&self) -> bool {
        grid_valid(self@, self.spec_lines(), self.spec_width())
    }

    /// A board of the given lines of cells, if each of them has `width` cells and every
    /// cell holds a value from 0 to 9.
    pub fn from_cells(cells: Vec<Vec<i32>>, width: usize) -> (board: Option<Board>)
        ensures
            board is Some <==> grid_valid(cells_grid(cells@), cells@.len() as nat, width as nat),
            board is Some ==> {
                &&& board->0.wf()
                &&& board->0@ == cells_grid(cells@)
                &&& board->0.spec_lines() == cells@.len()
                &&& board->0.spec_width() == width
            },
    {
        let ghost grid = cells_grid(cells@);
        let mut i: usize = 0;
        while i < cells.len()
            invariant
                i <= cells@.len(),
                grid == cells_grid(cells@),
                forall|a: int| 0 <= a < i ==> (#[trigger] grid[a]).len() == width,
                forall|a: int, b: int|
                    0 <= a < i && 0 <= b < width ==> 0 <= #[trigger] grid[a][b] <= 9,
            decreases cells@.len() - i,
        {
            if cells[i].len() != width {
                assert(grid[i as int].len() != width);
                return None;
            }
            let mut j: usize = 0;
            while j < width
                invariant
                    i < cells@.len(),
                    j <= width,
                    grid == cells_grid(cells@),
                    cells@[i as int]@.len() == width,
                    forall|b: int| 0 <= b < j ==> 0 <= #[trigger] grid[i as int][b] <= 9,
                decreases width - j,
            {
                let value = cells[i][j];
                if value < 0 || value > 9 {
                    assert(grid[i as int][j as int] == value);
                    return None;
                }
                j += 1;
            }
            i += 1;
        }
        Some(Board { lines: cells.len(), width, cells })
    }

    /// Whether the points of a full board of this size fit the score.
    pub fn fits_score(&self) -> (fits: bool)
        ensures
            fits == (9 * self.spec_lines() * self.spec_width() <= i32::MAX),
    {
        assert(9 * self.spec_lines() * self.spec_width() == 9 * (self.spec_lines()
            * self.spec_width())) by (nonlinear_arith);
        match self.lines.checked_mul(self.width) {
            Some(cells) => cells <= MAX_CELLS,
            None => false,
        }
    }

    /// Fills a board of `lines` lines of `width` cells from the generator, line by line,
    /// each cell with a value from `POINT_LOW` up to but excluding `POINT_HIGH`.
    pub fn seeded(rng: &mut StdRng, lines: usize, width: usize) -> (board: Board)
        ensures
            board.wf(),
            board.spec_lines() == lines,
            board.spec_width() == width,
            board@ == drawn_grid(generator_state(*old(rng)), lines as nat, width as nat),
            generator_state(*final(rng)) == after_points(
                generator_state(*old(rng)),
                (lines * width) as nat,
            ),
            forall|i: int, j: int|
                0 <= i < lines && 0 <= j < width ==> POINT_LOW <= (#[trigger] board@[i][j])
                    < POINT_HIGH,
    {
        let ghost start = generator_state(*rng);
        let mut cells: Vec<Vec<i32>> = Vec::new();
        let mut i: usize = 0;
        while i < lines
            invariant
                i <= lines,
                cells@.len() == i,
                generator_state(*rng) == after_points(start, (i * width) as nat),
                forall|a: int| 0 <= a < i ==> (#[trigger] cells@[a])@.len() == width,
                forall|a: int, b: int|
                    0 <= a < i && 0 <= b < width ==> {
                        &&& (#[trigger] cells@[a]@[b]) as int == nth_point(
                            start,
                            (a * width + b) as nat,
                        )
                        &&& POINT_LOW <= cells@[a]@[b] < POINT_HIGH
                    },
            decreases lines - i,
        {
            let mut line: Vec<i32> = Vec::new();
            let mut j: usize = 0;
            while j < width
                invariant
                    j <= width,
                    line@.len() == j,
                    generator_state(*rng) == after_points(start, (i * width + j) as nat),
                    forall|b: int|
                        0 <= b < j ==> {
                            &&& (#[trigger] line@[b]) as int == nth_point(
                                start,
                                (i * width + b) as nat,
                            )
                            &&& POINT_LOW <= line@[b] < POINT_HIGH
                        },
                decreases width - j,
            {
                let value = gen_point(rng, POINT_LOW, POINT_HIGH);
                line.push(value);
                j += 1;
            }
            assert((i + 1) * width == i * width + width) by (nonlinear_arith);
            cells.push(line);
            i += 1;
        }
        let board = Board { lines, width, cells };
        assert(board@ =~~= drawn_grid(start, lines as nat, width as nat));
        board
    }

    /// The number of lines.
    pub fn lines(&self) -> (lines: usize)
        ensures
            lines == self.spec_lines(),
    {
        self.lines
    }

    /// The number of cells in each line.
    pub fn width(&self) -> (width: usize)
        ensures
            width == self.spec_width(),
    {
        self.width
    }

    /// The value of cell `j` of line `i`.
    pub fn get(&self, i: usize, j: usize) -> (value: i32)
        requires
            self.wf(),
            i < self.spec_lines(),
            j < self.spec_width(),
        ensures
            value == self@[i as int][j as int],
    {
        assert(self@[i as int].len() == self.spec_width());
        self.cells[i][j]
    }

    /// Empties cell `j` of line `i` and returns the value it held.
    pub fn take(&mut self, i: usize, j: usize) -> (value: i32)
        requires
            old(self).wf(),
            i < old(self).spec_lines(),
            j < old(self).spec_width(),
        ensures
            final(self).wf(),
            final(self).spec_lines() == old(self).spec_lines(),
            final(self).spec_width() == old(self).spec_width(),
            value == old(self)@[i as int][j as int],
            final(self)@ == grid_cleared(old(self)@, i as int, j as int),
            grid_total(final(self)@) == grid_total(old(self)@) - value,
    {
        assert(self@[i as int].len() == self.spec_width());
        let value = self.cells[i][j];
        self.cells[i][j] = 0;
        proof {
            lemma_grid_cleared(
                old(self)@,
                old(self).spec_lines(),
                old(self).spec_width(),
                i as int,
                j as int,
            );
            assert(self@ =~~= grid_cleared(old(self)@, i as int, j as int));
        }
        value
    }
}

impl Clone for Board {
    fn clone(&self) -> (copy: Self)
        ensures
            copy@ == self@,
            copy.spec_lines() == self.spec_lines(),
            copy.spec_width() == self.spec_width(),
    {
        let mut cells: Vec<Vec<i32>> = Vec::new();
        let mut i: usize = 0;
        while i < self.cells.len()
            invariant
                i <= self.cells@.len(),
                cells@.len() == i,
                forall|a: int| 0 <= a < i ==> (#[trigger] cells@[a])@ == self.cells@[a]@,
            decreases self.cells@.len() - i,
        {
            let line = self.cells[i].clone();
            cells.push(line);
            i += 1;
        }
        let copy = Board { lines: self.lines, width: self.width, cells };
        copy
    }
}

} // verus!
