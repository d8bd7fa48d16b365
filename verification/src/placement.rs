//! The placement of the mines: repeated passes over the grid in which each
//! cell that may take a mine gets one if its random draw falls within the
//! threshold, until the wanted number of mines is placed.

use vstd::prelude::*;
use crate::board::{Board, BoardError, BoardView};
use crate::cell::{Cell, CellState};
use crate::entropy::{draw_places_mine, get_random_draw, within_threshold};
use crate::grid::{index_of, lemma_index_on_grid};
use crate::tally::{
    count_true,
    lemma_mine_total_update,
    lemma_state_total_update,
    mine_total,
};

verus! {

/// The largest number of passes over the grid that a placement makes.
pub const MAX_PASSES: u64 = 0xffff_ffff_ffff_ffff;

/// The cell `c` with a mine on it.
pub open spec fn mined(c: Cell) -> Cell {
    Cell { neighboring_mines: c.neighboring_mines, state: c.state, has_mine: true }
}

impl BoardView {
    /// The board with a mine on the cell at index `i`.
    pub open spec fn with_mine(self, i: int) -> BoardView {
        BoardView {
            mines: self.mines,
            rows: self.rows,
            columns: self.columns,
            flags_placed: self.flags_placed,
            cells: self.cells.update(i, mined(self.cells[i])),
        }
    }

    /// For each cell, whether a placement that avoids index `avoid` may put
    /// a mine on it: it has none yet and is not the avoided cell.
    pub open spec fn free_bits(self, avoid: int) -> Seq<bool> {
        Seq::new(self.cells.len(), |i: int| !self.cells[i].has_mine && i != avoid)
    }

    /// The number of cells that may take a mine.
    pub open spec fn free_cells(self, avoid: int) -> int {
        count_true(self.free_bits(avoid))
    }

    /// Whether `after` is this board with mines added and nothing else
    /// changed, the cell at index `avoid` untouched.
    pub open spec fn only_mines_added(self, after: BoardView, avoid: int) -> bool {
        &&& after.mines == self.mines
        &&& after.rows == self.rows
        &&& after.columns == self.columns
        &&& after.flags_placed == self.flags_placed
        &&& after.cells.len() == self.cells.len()
        &&& after.cells[avoid] == self.cells[avoid]
        &&& forall|i: int|
            0 <= i < self.cells.len() ==> #[trigger] after.cells[i] == self.cells[i]
                || after.cells[i] == mined(self.cells[i])
    }

    /// Whether `after` and `res` are a possible outcome of placing this
    /// board's mines while the cell at `(avoid_row, avoid_column)` is avoided.
    ///
    /// A position off the grid gives `OutOfRange`, and fewer cells that may
    /// take a mine than mines to place give `NoRoom`; both leave the board as
    /// it is. Otherwise only mines are added: all of them with `Ok`, fewer
    /// with `Entropy` or `PassLimit`. Where no mine is wanted the outcome is
    /// `Ok`.
    pub open spec fn placed_by(
        self,
        after: BoardView,
        res: Result<(), BoardError>,
        avoid_row: int,
        avoid_column: int,
    ) -> bool {
        let avoid = index_of(self.columns, avoid_row, avoid_column);
        if !self.on_grid(avoid_row, avoid_column) {
            res == Err::<(), BoardError>(BoardError::OutOfRange) && after == self
        } else if self.free_cells(avoid) < self.mines {
            res == Err::<(), BoardError>(BoardError::NoRoom) && after == self
        } else {
            &&& self.only_mines_added(after, avoid)
            &&& res is Ok ==> mine_total(after.cells) == mine_total(self.cells) + self.mines
            &&& res matches Err(e) ==> (e == BoardError::Entropy || e == BoardError::PassLimit)
                && mine_total(self.cells) <= mine_total(after.cells) < mine_total(self.cells)
                + self.mines
            &&& self.mines == 0 ==> res is Ok
        }
    }
}

impl Board {
    /// The number of cells that a placement avoiding index `avoid` may put a
    /// mine on.
    pub fn count_free_cells(&self, avoid: usize) -> (n: usize)
        ensures
            n == self@.free_cells(avoid as int),
    {
        let ghost bits = self@.free_bits(avoid as int);
        let mut n: usize = 0;
        let mut i: usize = 0;
        while i < self.cells.len()
            invariant
                i <= self.cells@.len(),
                bits == self@.free_bits(avoid as int),
                n == count_true(bits.take(i as int)),
                n <= i,
            decreases self.cells@.len() - i,
        {
            proof {
                assert(bits.take(i + 1).drop_last() =~= bits.take(i as int));
            }
            if !self.cells[i].has_mine && i != avoid {
                n += 1;
            }
            i += 1;
        }
        assert(bits.take(i as int) =~= bits);
        n
    }

    /// Puts a mine on the safe cell at index `i` if `draw` falls within the
    /// threshold of the board, and says whether it did.
    pub fn offer_mine(&mut self, i: usize, draw: u32) -> (placed: bool)
        requires
            old(self).wf(),
            i < old(self).cells@.len(),
            !old(self).cells@[i as int].has_mine,
        ensures
            placed == draw_places_mine(
                draw as int,
                old(self).mines as int,
                old(self).cells@.len() as int,
            ),
            final(self)@ == (if placed {
                old(self)@.with_mine(i as int)
            } else {
                old(self)@
            }),
            final(self).wf(),
    {
        let placed = within_threshold(draw, self.mines, self.cells.len());
        if placed {
            proof {
                lemma_state_total_update(
                    self.cells@,
                    i as int,
                    mined(self.cells@[i as int]),
                    CellState::Flagged,
                );
            }
            self.cells[i].has_mine = true;
            assert(self@ == old(self)@.with_mine(i as int));
        }
        placed
    }

    /// Places `mines` more mines, none of them on the cell at `(avoid_row,
    /// avoid_column)`, in at most `max_passes` passes over the grid.
    ///
    /// The outcome is one that `placed_by` allows. `Entropy` says that the
    /// random source failed, `PassLimit` that the passes were used up before
    /// the last mine was placed; without a pass to make, nothing is placed.
    pub fn place_mines_within(
        &mut self,
        avoid_row: usize,
        avoid_column: usize,
        max_passes: u64,
    ) -> (res: Result<(), BoardError>)
        requires
            old(self).wf(),
        ensures
            final(self).wf(),
            old(self)@.placed_by(final(self)@, res, avoid_row as int, avoid_column as int),
            old(self).mines > 0 && max_passes == 0 && res != Err::<(), BoardError>(
                BoardError::OutOfRange,
            ) && res != Err::<(), BoardError>(BoardError::NoRoom) ==> res == Err::<(), BoardError>(
                BoardError::PassLimit,
            ) && final(self)@ == old(self)@,
    {
        if avoid_row >= self.rows || avoid_column >= self.columns {
            return Err(BoardError::OutOfRange);
        }
        proof {
            lemma_index_on_grid(
                self.rows as int,
                self.columns as int,
                avoid_row as int,
                avoid_column as int,
            );
        }
        let index_to_avoid = self.coords_to_index(avoid_row, avoid_column);
        let num_tiles = self.cells.len();
        if self.count_free_cells(index_to_avoid) < self.mines as usize {
            return Err(BoardError::NoRoom);
        }
        let ghost start = self@;
        let mines = self.mines;
        let mut mines_to_place: i32 = mines;
        let mut passes: u64 = 0;
        while mines_to_place >= 1
            invariant
                self.wf(),
                start == old(self)@,
                start.on_grid(avoid_row as int, avoid_column as int),
                index_to_avoid == index_of(start.columns, avoid_row as int, avoid_column as int),
                start.free_cells(index_to_avoid as int) >= start.mines,
                num_tiles == self.cells@.len(),
                index_to_avoid < num_tiles,
                mines == start.mines,
                start.only_mines_added(self@, index_to_avoid as int),
                0 <= mines_to_place <= mines,
                mine_total(self.cells@) == mine_total(start.cells) + mines - mines_to_place,
                passes <= max_passes,
                passes == 0 ==> self@ == start,
            decreases max_passes - passes,
        {
            if passes >= max_passes {
                return Err(BoardError::PassLimit);
            }
            passes += 1;
            let mut i: usize = 0;
            while i < num_tiles && mines_to_place >= 1
                invariant
                    self.wf(),
                    start == old(self)@,
                    start.on_grid(avoid_row as int, avoid_column as int),
                    index_to_avoid == index_of(start.columns, avoid_row as int, avoid_column as int),
                    start.free_cells(index_to_avoid as int) >= start.mines,
                    max_passes > 0,
                    num_tiles == self.cells@.len(),
                    index_to_avoid < num_tiles,
                    mines == start.mines,
                    start.only_mines_added(self@, index_to_avoid as int),
                    0 <= mines_to_place <= mines,
                    mine_total(self.cells@) == mine_total(start.cells) + mines - mines_to_place,
                    i <= num_tiles,
                decreases num_tiles - i,
            {
                if !self.cells[i].has_mine && i != index_to_avoid {
                    match get_random_draw() {
                        Err(e) => {
                            return Err(e);
                        },
                        Ok(draw) => {
                            let ghost now = self@;
                            if self.offer_mine(i, draw) {
                                proof {
                                    lemma_mine_total_update(
                                        now.cells,
                                        i as int,
                                        mined(now.cells[i as int]),
                                    );
                                    assert(now.cells[i as int] == start.cells[i as int]);
                                }
                                mines_to_place -= 1;
                            }
                        },
                    }
                }
                i += 1;
            }
        }
        Ok(())
    }

    /// Places `mines` more mines, none of them on the cell at `(avoid_row,
    /// avoid_column)`: `place_mines_within` with `MAX_PASSES` passes.
    pub fn place_mines(&mut self, avoid_row: usize, avoid_column: usize) -> (res: Result<
        (),
        BoardError,
    >)
        requires
            old(self).wf(),
        ensures
            final(self).wf(),
            old(self)@.placed_by(final(self)@, res, avoid_row as int, avoid_column as int),
    {
        self.place_mines_within(avoid_row, avoid_column, MAX_PASSES)
    }
}

} // verus!
