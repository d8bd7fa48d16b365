//! A single position of the grid.

use vstd::prelude::*;

verus! {

/// What the player sees of a cell.
#[derive(Debug, Clone, Copy, PartialEq, Eq, Structural)]
pub enum CellState {
    Hidden,
    Revealed,
    Flagged,
}

/// One grid position: whether it holds a mine, how many of its neighbours
/// do, and what the player sees of it.
#[derive(Debug, Clone, Copy, PartialEq, Eq, Structural)]
pub struct Cell {
    pub neighboring_mines: i32,
    pub state: CellState,
    pub has_mine: bool,
}

/// The character of a decimal digit.
pub open spec fn digit_char(n: int) -> char
    recommends
        0 <= n <= 9,
{
    (('0' as int) + n) as char
}

impl Cell {
    /// The character that stands for the cell in a printed grid: `x` for a
    /// mine, else the digit of its neighbour count.
    pub open spec fn repr(self) -> char {
        if self.has_mine {
            'x'
        } else {
            digit_char(self.neighboring_mines as int)
        }
    }

    /// Whether the cell can be printed: a safe cell needs a count of one digit.
    pub open spec fn printable(self) -> bool {
        self.has_mine || 0 <= self.neighboring_mines <= 9
    }

    /// A hidden cell without a mine.
    pub fn e() -> (cell: Cell)
        ensures
            cell == (Cell { neighboring_mines: 0, state: CellState::Hidden, has_mine: false }),
    {
        Cell { neighboring_mines: 0, state: CellState::Hidden, has_mine: false }
    }

    /// A hidden cell with a mine.
    pub fn m() -> (cell: Cell)
        ensures
            cell == (Cell { neighboring_mines: 0, state: CellState::Hidden, has_mine: true }),
    {
        Cell { neighboring_mines: 0, state: CellState::Hidden, has_mine: true }
    }

    /// The cell's character in a printed grid.
    pub fn repr_val(&self) -> (c: char)
        requires
            self.printable(),
        ensures
            c == self.repr(),
    {
        if self.has_mine {
            'x'
        } else {
            match self.neighboring_mines {
                0 => '0',
                1 => '1',
                2 => '2',
                3 => '3',
                4 => '4',
                5 => '5',
                6 => '6',
                7 => '7',
                8 => '8',
                _ => '9',
            }
        }
    }

    /// Reveals the cell if it is hidden; a revealed or flagged cell stays as it is.
    pub fn uncover(&mut self)
        ensures
            final(self).has_mine == old(self).has_mine,
            final(self).neighboring_mines == old(self).neighboring_mines,
            final(self).state == (if old(self).state == CellState::Hidden {
                CellState::Revealed
            } else {
                old(self).state
            }),
    {
        if self.state == CellState::Hidden {
            self.state = CellState::Revealed;
        }
    }

    /// Flags the cell if it is hidden; a revealed or flagged cell stays as it is.
    pub fn flag(&mut self)
        ensures
            final(self).has_mine == old(self).has_mine,
            final(self).neighboring_mines == old(self).neighboring_mines,
            final(self).state == (if old(self).state == CellState::Hidden {
                CellState::Flagged
            } else {
                old(self).state
            }),
    {
        if self.state == CellState::Hidden {
            self.state = CellState::Flagged;
        }
    }
}

} // verus!
