//! The board: a grid of cells, its construction and its coordinates.

use vstd::prelude::*;
use crate::cell::{Cell, CellState};
use crate::grid::{column_of, index_of, row_of};
use crate::tally::{lemma_count_zero, state_bits, state_total};

verus! {

/// The largest number of cells a board can have: the counters of mines and
/// of flags are of type `i32`.
pub const MAX_CELLS: usize = 0x7fff_ffff;

/// The grid of cells with its counters.
#[derive(Debug)]
pub struct Board {
    pub mines: i32,
    pub rows: usize,
    pub columns: usize,
    pub flags_placed: i32,
    pub cells: Vec<Cell>,
}

/// What the player does to a cell: `Left` reveals, `Right` sets or lifts a flag.
#[derive(Debug, Clone, Copy, PartialEq, Eq, Structural)]
pub enum Click {
    Left,
    Right,
}

/// Why the board refused an input.
#[derive(Debug, Clone, Copy, PartialEq, Eq, Structural)]
pub enum BoardError {
    /// A board needs at least one row and one column, and at most
    /// `MAX_CELLS` cells.
    InvalidDimensions,
    /// The number of mines is negative, or leaves no cell free.
    InvalidMineCount,
    /// A row or a column lies off the grid.
    OutOfRange,
    /// The cells that may take a mine are fewer than the mines to place.
    NoRoom,
    /// The source of random bytes failed.
    Entropy,
    /// The counter of passes over the grid was used up.
    PassLimit,
}

/// A board as a mathematical value.
pub struct BoardView {
    pub mines: int,
    pub rows: int,
    pub columns: int,
    pub flags_placed: int,
    pub cells: Seq<Cell>,
}

/// The cell that every position of a new board holds.
pub open spec fn blank_cell() -> Cell {
    Cell { neighboring_mines: 0, state: CellState::Hidden, has_mine: false }
}

/// Whether a grid of `rows` by `columns` cells can be built.
pub open spec fn valid_dimensions(rows: int, columns: int) -> bool {
    0 < rows && 0 < columns && rows * columns <= MAX_CELLS
}

/// Whether `mines` mines leave at least one cell of the grid free.
pub open spec fn valid_mine_count(mines: int, rows: int, columns: int) -> bool {
    0 <= mines < rows * columns
}

impl BoardView {
    /// The board before the first click: every cell hidden and safe.
    pub open spec fn fresh(mines: int, rows: int, columns: int) -> BoardView {
        BoardView {
            mines,
            rows,
            columns,
            flags_placed: 0,
            cells: Seq::new((rows * columns) as nat, |i: int| blank_cell()),
        }
    }

    /// The invariant of a board: the cells fill the grid, the mines leave a
    /// cell free, and `flags_placed` is the number of flagged cells.
    pub open spec fn well_formed(self) -> bool {
        &&& valid_dimensions(self.rows, self.columns)
        &&& valid_mine_count(self.mines, self.rows, self.columns)
        &&& self.cells.len() == self.rows * self.columns
        &&& self.flags_placed == state_total(self.cells, CellState::Flagged)
    }

    /// Whether `(row, column)` is a position of this board.
    pub open spec fn on_grid(self, row: int, column: int) -> bool {
        0 <= row < self.rows && 0 <= column < self.columns
    }
}

impl View for Board {
    type V = BoardView;

    open spec fn view(&self) -> BoardView {
        BoardView {
            mines: self.mines as int,
            rows: self.rows as int,
            columns: self.columns as int,
            flags_placed: self.flags_placed as int,
            cells: self.cells@,
        }
    }
}

/// A new board has no flagged cell.
pub proof fn lemma_fresh_is_well_formed(mines: int, rows: int, columns: int)
    requires
        valid_dimensions(rows, columns),
        valid_mine_count(mines, rows, columns),
    ensures
        BoardView::fresh(mines, rows, columns).well_formed(),
{
    let v = BoardView::fresh(mines, rows, columns);
    lemma_count_zero(state_bits(v.cells, CellState::Flagged));
}

impl Board {
    /// The invariant of the board, stated of its view.
    pub open spec fn wf(&self) -> bool {
        self@.well_formed()
    }

    /// Builds a board of `rows` by `columns` hidden, safe cells that is to
    /// take `mines` mines. Refuses dimensions that give no cell or more than
    /// `MAX_CELLS`, and after that a mine count that is negative or leaves no
    /// cell free.
    pub fn new(mines: i32, rows: usize, columns: usize) -> (res: Result<Board, BoardError>)
        ensures
            res is Ok <==> valid_dimensions(rows as int, columns as int) && valid_mine_count(
                mines as int,
                rows as int,
                columns as int,
            ),
            res matches Ok(board) ==> board@ == BoardView::fresh(
                mines as int,
                rows as int,
                columns as int,
            ) && board.wf(),
            res matches Err(e) ==> e == (if valid_dimensions(rows as int, columns as int) {
                BoardError::InvalidMineCount
            } else {
                BoardError::InvalidDimensions
            }),
    {
        if rows == 0 || columns == 0 || rows > MAX_CELLS || columns > MAX_CELLS {
            assert(!valid_dimensions(rows as int, columns as int)) by (nonlinear_arith)
                requires
                    rows == 0 || columns == 0 || rows > MAX_CELLS || columns > MAX_CELLS,
            ;
            return Err(BoardError::InvalidDimensions);
        }
        assert(rows * columns <= 0x7fff_ffff * 0x7fff_ffff) by (nonlinear_arith)
            requires
                rows <= 0x7fff_ffff,
                columns <= 0x7fff_ffff,
        ;
        let wide: u64 = (rows as u64) * (columns as u64);
        if wide > MAX_CELLS as u64 {
            return Err(BoardError::InvalidDimensions);
        }
        let num_cells: usize = rows * columns;
        if mines < 0 || mines as u64 >= wide {
            return Err(BoardError::InvalidMineCount);
        }
        let mut cells: Vec<Cell> = Vec::with_capacity(num_cells);
        let mut n: usize = 0;
        while n < num_cells
            invariant
                n <= num_cells,
                cells@ =~= Seq::new(n as nat, |i: int| blank_cell()),
            decreases num_cells - n,
        {
            cells.push(Cell { neighboring_mines: 0, state: CellState::Hidden, has_mine: false });
            n += 1;
        }
        let board = Board { mines, rows, columns, flags_placed: 0, cells };
        proof {
            lemma_fresh_is_well_formed(mines as int, rows as int, columns as int);
            assert(board@.cells =~= BoardView::fresh(
                mines as int,
                rows as int,
                columns as int,
            ).cells);
        }
        Ok(board)
    }

    /// The storage index of the cell at `(row, column)`.
    pub fn coords_to_index(&self, row: usize, column: usize) -> (i: usize)
        requires
            index_of(self.columns as int, row as int, column as int) <= usize::MAX,
        ensures
            i == index_of(self.columns as int, row as int, column as int),
    {
        assert(0 <= row * self.columns) by (nonlinear_arith);
        row * self.columns + column
    }

    /// The row and the column of the cell stored at index `i`.
    pub fn index_to_coords(&self, i: usize) -> (coords: (usize, usize))
        requires
            self.columns > 0,
        ensures
            coords.0 == row_of(self.columns as int, i as int),
            coords.1 == column_of(self.columns as int, i as int),
    {
        (i / self.columns, i % self.columns)
    }

    /// The number of cells of the grid.
    pub fn get_total_number_of_cells(&self) -> (n: usize)
        requires
            self.rows * self.columns <= usize::MAX,
        ensures
            n == self.rows * self.columns,
    {
        self.rows * self.columns
    }
}

} // verus!
