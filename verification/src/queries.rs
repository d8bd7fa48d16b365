//! What a caller reads off the board: a row as text, and whether the game
//! is lost or won.

use vstd::prelude::*;
use crate::board::{Board, BoardView};
use crate::cell::CellState;
use crate::grid::{index_of, lemma_index_on_grid};

verus! {

/// `String::push` appends one character to the end of the string.
pub assume_specification[ String::push ](s: &mut String, ch: char)
    ensures
        final(s)@ == old(s)@.push(ch),
;

impl BoardView {
    /// The text of a row: for each of its cells `x` where it holds a mine,
    /// else the digit of its neighbour count.
    pub open spec fn row_text(self, row: int) -> Seq<char> {
        Seq::new(
            self.columns as nat,
            |column: int| self.cells[index_of(self.columns, row, column)].repr(),
        )
    }

    /// Whether every cell of a row can be printed.
    pub open spec fn row_printable(self, row: int) -> bool {
        forall|column: int|
            0 <= column < self.columns ==> (#[trigger] self.cells[index_of(
                self.columns,
                row,
                column,
            )]).printable()
    }

    /// The game is lost once a cell with a mine is revealed.
    pub open spec fn lost(self) -> bool {
        exists|i: int|
            0 <= i < self.cells.len() && (#[trigger] self.cells[i]).has_mine && self.cells[i].state
                == CellState::Revealed
    }

    /// The game is won once every cell without a mine is revealed.
    pub open spec fn won(self) -> bool {
        forall|i: int|
            0 <= i < self.cells.len() && !(#[trigger] self.cells[i]).has_mine
                ==> self.cells[i].state == CellState::Revealed
    }
}

impl Board {
    /// The text of a row, as `row_text` says.
    pub fn row_as_string(&self, row: usize) -> (s: String)
        requires
            self.wf(),
            row < self.rows,
            self@.row_printable(row as int),
        ensures
            s@ == self@.row_text(row as int),
    {
        let mut s = String::new();
        let mut column: usize = 0;
        while column < self.columns
            invariant
                self.wf(),
                row < self.rows,
                self@.row_printable(row as int),
                column <= self.columns,
                s@ == self@.row_text(row as int).take(column as int),
            decreases self.columns - column,
        {
            proof {
                lemma_index_on_grid(
                    self.rows as int,
                    self.columns as int,
                    row as int,
                    column as int,
                );
            }
            let i = self.coords_to_index(row, column);
            s.push(self.cells[i].repr_val());
            proof {
                let text = self@.row_text(row as int);
                assert(text.take(column + 1) =~= text.take(column as int).push(
                    text[column as int],
                ));
            }
            column += 1;
        }
        assert(self@.row_text(row as int).take(column as int) =~= self@.row_text(row as int));
        s
    }

    /// Whether a cell with a mine is revealed.
    pub fn game_lost(&self) -> (lost: bool)
        ensures
            lost == self@.lost(),
    {
        let mut i: usize = 0;
        while i < self.cells.len()
            invariant
                i <= self.cells@.len(),
                forall|j: int|
                    0 <= j < i ==> !((#[trigger] self.cells@[j]).has_mine && self.cells@[j].state
                        == CellState::Revealed),
            decreases self.cells@.len() - i,
        {
            if self.cells[i].has_mine && self.cells[i].state == CellState::Revealed {
                return true;
            }
            i += 1;
        }
        false
    }

    /// Whether every cell without a mine is revealed.
    pub fn game_won(&self) -> (won: bool)
        ensures
            won == self@.won(),
    {
        let mut i: usize = 0;
        while i < self.cells.len()
            invariant
                i <= self.cells@.len(),
                forall|j: int|
                    0 <= j < i && !(#[trigger] self.cells@[j]).has_mine ==> self.cells@[j].state
                        == CellState::Revealed,
            decreases self.cells@.len() - i,
        {
            if !self.cells[i].has_mine && self.cells[i].state != CellState::Revealed {
                return false;
            }
            i += 1;
        }
        true
    }
}

} // verus!
