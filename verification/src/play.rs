//! The clicks of the player: what each does to the cell it lands on.

use vstd::prelude::*;
use crate::board::{Board, BoardError, BoardView, Click};
use crate::cell::{Cell, CellState};
use crate::flood::revealed;
use crate::grid::{index_of, lemma_index_on_grid};
use crate::tally::{lemma_count_bounds, lemma_state_total_update, state_bits};

verus! {

/// The cell `c` in state `state`.
pub open spec fn in_state(c: Cell, state: CellState) -> Cell {
    Cell { neighboring_mines: c.neighboring_mines, state, has_mine: c.has_mine }
}

impl BoardView {
    /// The board with the cell at index `i` replaced and the flag counter
    /// moved by `flags`.
    pub open spec fn with_cell(self, i: int, c: Cell, flags: int) -> BoardView {
        BoardView {
            mines: self.mines,
            rows: self.rows,
            columns: self.columns,
            flags_placed: self.flags_placed + flags,
            cells: self.cells.update(i, c),
        }
    }

    /// The board after a click on the cell at index `i`.
    ///
    /// A left click reveals a hidden cell, and cascades from it if no mine
    /// touches it. On a revealed cell it cascades if as many flags touch the
    /// cell as its number says, whether or not those flags sit on mines. A
    /// right click flags a hidden cell and lifts the flag of a flagged one.
    /// A left click on a flagged cell and a right click on a revealed cell
    /// do nothing.
    pub open spec fn clicked(self, i: int, click: Click) -> BoardView {
        let cell = self.cells[i];
        match (click, cell.state) {
            (Click::Left, CellState::Hidden) => {
                let opened = self.with_cell(i, revealed(cell), 0);
                if cell.neighboring_mines == 0 {
                    opened.flooded(i)
                } else {
                    opened
                }
            },
            (Click::Left, CellState::Revealed) => {
                if self.adjacent_flags(i) == cell.neighboring_mines {
                    self.flooded(i)
                } else {
                    self
                }
            },
            (Click::Right, CellState::Hidden) => self.with_cell(
                i,
                in_state(cell, CellState::Flagged),
                1,
            ),
            (Click::Right, CellState::Flagged) => self.with_cell(
                i,
                in_state(cell, CellState::Hidden),
                -1,
            ),
            (Click::Left, CellState::Flagged) => self,
            (Click::Right, CellState::Revealed) => self,
        }
    }
}

impl Board {
    /// Applies a click to the cell at `(row, column)`, as `clicked` says.
    /// A position off the grid is refused and leaves the board as it is.
    pub fn update_state(&mut self, row: usize, column: usize, click: Click) -> (res: Result<
        (),
        BoardError,
    >)
        requires
            old(self).wf(),
        ensures
            res is Ok <==> old(self)@.on_grid(row as int, column as int),
            res is Ok ==> final(self)@ == old(self)@.clicked(
                index_of(old(self).columns as int, row as int, column as int),
                click,
            ),
            res matches Err(e) ==> e == BoardError::OutOfRange && final(self)@ == old(self)@,
            final(self).wf(),
    {
        if row >= self.rows || column >= self.columns {
            return Err(BoardError::OutOfRange);
        }
        proof {
            lemma_index_on_grid(
                self.rows as int,
                self.columns as int,
                row as int,
                column as int,
            );
        }
        let i = self.coords_to_index(row, column);
        let ghost start = self@;
        let cell = self.cells[i];
        proof {
            lemma_count_bounds(state_bits(start.cells, CellState::Flagged));
            lemma_state_total_update(
                start.cells,
                i as int,
                revealed(cell),
                CellState::Flagged,
            );
            lemma_state_total_update(
                start.cells,
                i as int,
                in_state(cell, CellState::Flagged),
                CellState::Flagged,
            );
            lemma_state_total_update(
                start.cells,
                i as int,
                in_state(cell, CellState::Hidden),
                CellState::Flagged,
            );
            lemma_count_bounds(
                state_bits(
                    start.cells.update(i as int, in_state(cell, CellState::Flagged)),
                    CellState::Flagged,
                ),
            );
        }
        match (click, cell.state) {
            (Click::Left, CellState::Hidden) => {
                self.cells[i].state = CellState::Revealed;
                assert(self@ == start.with_cell(i as int, revealed(cell), 0));
                if cell.neighboring_mines == 0 {
                    self.reveal_neighbors(i);
                }
            },
            (Click::Left, CellState::Revealed) => {
                let num_neighboring_flags = self.count_neighboring_flags(i);
                if num_neighboring_flags == cell.neighboring_mines {
                    self.reveal_neighbors(i);
                }
            },
            (Click::Right, CellState::Hidden) => {
                self.cells[i].state = CellState::Flagged;
                self.flags_placed += 1;
                assert(self@ == start.with_cell(i as int, in_state(cell, CellState::Flagged), 1));
            },
            (Click::Right, CellState::Flagged) => {
                self.cells[i].state = CellState::Hidden;
                self.flags_placed -= 1;
                assert(self@ == start.with_cell(i as int, in_state(cell, CellState::Hidden), -1));
            },
            _ => {},
        }
        Ok(())
    }
}

} // verus!
