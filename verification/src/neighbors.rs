//! The cells around a cell: their indices, and how many of them hold a
//! mine or a flag.

use vstd::prelude::*;
use crate::board::{Board, BoardView};
use crate::cell::{Cell, CellState};
use crate::grid::{
    adjacent,
    index_of,
    lemma_index_on_grid,
    lemma_neighbors_are_adjacent,
    lemma_on_grid_iff_below,
    neighbor_at,
    neighbors,
    neighbors_in_column,
};
use crate::tally::{
    count_true,
    flags_among,
    lemma_count_bounds,
    lemma_state_total_update,
    mines_among,
};

verus! {

/// A sequence of indices as mathematical integers.
pub open spec fn as_ints(s: Seq<usize>) -> Seq<int> {
    Seq::new(s.len(), |k: int| s[k] as int)
}

/// Appending to the indices appends to their integers.
proof fn lemma_as_ints_push(s: Seq<usize>, x: usize)
    ensures
        as_ints(s.push(x)) == as_ints(s) + seq![x as int],
{
    assert(as_ints(s.push(x)) =~= as_ints(s) + seq![x as int]);
}

/// A cell has at most eight neighbours, each of them a cell of the grid,
/// and they are exactly the adjacent cells.
pub proof fn lemma_neighbors_on_grid(rows: int, columns: int, i: int)
    requires
        0 < columns,
        0 <= i,
    ensures
        neighbors(rows, columns, i).len() <= 8,
        forall|k: int|
            0 <= k < neighbors(rows, columns, i).len() ==> 0 <= #[trigger] neighbors(
                rows,
                columns,
                i,
            )[k] < rows * columns && adjacent(rows, columns, i, neighbors(rows, columns, i)[k]),
{
    let s = neighbors(rows, columns, i);
    assert forall|k: int| 0 <= k < s.len() implies 0 <= #[trigger] s[k] < rows * columns
        && adjacent(rows, columns, i, s[k]) by {
        assert(s.contains(s[k]));
        lemma_neighbors_are_adjacent(rows, columns, i, s[k]);
        lemma_on_grid_iff_below(rows, columns, s[k]);
    }
}

impl BoardView {
    /// The number of mines on the cells that touch index `i`.
    pub open spec fn adjacent_mines(self, i: int) -> int {
        mines_among(self.cells, neighbors(self.rows, self.columns, i))
    }

    /// The number of flagged cells among those that touch index `i`.
    pub open spec fn adjacent_flags(self, i: int) -> int {
        flags_among(self.cells, neighbors(self.rows, self.columns, i))
    }

    /// The board with the neighbour count of every safe cell set to the
    /// number of mines around it. Cells with a mine keep their count.
    pub open spec fn counted(self) -> BoardView {
        BoardView {
            mines: self.mines,
            rows: self.rows,
            columns: self.columns,
            flags_placed: self.flags_placed,
            cells: Seq::new(
                self.cells.len(),
                |i: int|
                    if self.cells[i].has_mine {
                        self.cells[i]
                    } else {
                        with_count(self.cells[i], self.adjacent_mines(i))
                    },
            ),
        }
    }
}

/// The cell `c` with `n` as its neighbour count.
pub open spec fn with_count(c: Cell, n: int) -> Cell {
    Cell { neighboring_mines: n as i32, state: c.state, has_mine: c.has_mine }
}

/// Between none and eight mines lie around a cell.
pub proof fn lemma_adjacent_mines_bounds(v: BoardView, i: int)
    requires
        0 < v.columns,
        0 <= i,
    ensures
        0 <= v.adjacent_mines(i) <= 8,
{
    let around = neighbors(v.rows, v.columns, i);
    lemma_neighbors_on_grid(v.rows, v.columns, i);
    lemma_count_bounds(Seq::new(around.len(), |k: int| v.cells[around[k]].has_mine));
}

/// Boards whose cells hold their mines alike have the same number of mines
/// around every cell.
proof fn lemma_same_mines_same_count(a: BoardView, b: BoardView, i: int)
    requires
        a.rows == b.rows,
        a.columns == b.columns,
        a.cells.len() == b.cells.len(),
        0 < a.columns,
        0 <= i,
        a.cells.len() == a.rows * a.columns,
        forall|j: int| 0 <= j < a.cells.len() ==> a.cells[j].has_mine == b.cells[j].has_mine,
    ensures
        a.adjacent_mines(i) == b.adjacent_mines(i),
{
    let around = neighbors(a.rows, a.columns, i);
    lemma_neighbors_on_grid(a.rows, a.columns, i);
    assert(Seq::new(around.len(), |k: int| a.cells[around[k]].has_mine) =~= Seq::new(
        around.len(),
        |k: int| b.cells[around[k]].has_mine,
    ));
}

impl Board {
    /// Appends to `out` the index of the cell that lies `dr` rows and `dc`
    /// columns from index `i`, if that position is on the grid.
    fn push_neighbor(&self, out: &mut Vec<usize>, i: usize, dr: i8, dc: i8)
        requires
            self.wf(),
            -1 <= dr <= 1,
            -1 <= dc <= 1,
        ensures
            as_ints(final(out)@) == as_ints(old(out)@) + neighbor_at(
                self.rows as int,
                self.columns as int,
                i as int,
                dr as int,
                dc as int,
            ),
    {
        let (row, column) = self.index_to_coords(i);
        let r: i128 = row as i128 + dr as i128;
        let c: i128 = column as i128 + dc as i128;
        if 0 <= r && r < self.rows as i128 && 0 <= c && c < self.columns as i128 {
            proof {
                lemma_index_on_grid(self.rows as int, self.columns as int, r as int, c as int);
                lemma_as_ints_push(
                    out@,
                    index_of(self.columns as int, r as int, c as int) as usize,
                );
            }
            let n = self.coords_to_index(r as usize, c as usize);
            out.push(n);
        } else {
            assert(as_ints(out@) + Seq::<int>::empty() =~= as_ints(out@));
        }
    }

    /// The indices of the cells that touch the cell at index `i`, column by
    /// column from the left and, within a column, from the row above down.
    pub fn get_neighbor_indices(&self, i: usize) -> (out: Vec<usize>)
        requires
            self.wf(),
        ensures
            as_ints(out@) == neighbors(self.rows as int, self.columns as int, i as int),
            out@.len() <= 8,
            forall|k: int| 0 <= k < out@.len() ==> #[trigger] out@[k] < self.cells@.len(),
    {
        let mut out: Vec<usize> = Vec::new();
        let ghost rows = self.rows as int;
        let ghost columns = self.columns as int;
        assert(as_ints(out@) =~= Seq::<int>::empty());
        self.push_neighbor(&mut out, i, -1, -1);
        self.push_neighbor(&mut out, i, 0, -1);
        self.push_neighbor(&mut out, i, 1, -1);
        assert(as_ints(out@) =~= neighbors_in_column(rows, columns, i as int, -1));
        self.push_neighbor(&mut out, i, -1, 0);
        self.push_neighbor(&mut out, i, 1, 0);
        assert(as_ints(out@) =~= neighbors_in_column(rows, columns, i as int, -1)
            + neighbors_in_column(rows, columns, i as int, 0));
        self.push_neighbor(&mut out, i, -1, 1);
        self.push_neighbor(&mut out, i, 0, 1);
        self.push_neighbor(&mut out, i, 1, 1);
        assert(as_ints(out@) =~= neighbors(rows, columns, i as int));
        proof {
            lemma_neighbors_on_grid(rows, columns, i as int);
            assert forall|k: int| 0 <= k < out@.len() implies #[trigger] out@[k]
                < self.cells@.len() by {
                assert(as_ints(out@)[k] == out@[k] as int);
            }
        }
        out
    }

    /// The number of mines on the cells that touch the cell at index `i`.
    pub fn count_neighboring_bombs(&self, i: usize) -> (count: i32)
        requires
            self.wf(),
        ensures
            count == self@.adjacent_mines(i as int),
            0 <= count <= 8,
    {
        let neighbor_indices = self.get_neighbor_indices(i);
        let ghost bits = Seq::new(
            neighbor_indices@.len(),
            |k: int| self.cells@[as_ints(neighbor_indices@)[k]].has_mine,
        );
        let mut count: i32 = 0;
        let mut k: usize = 0;
        while k < neighbor_indices.len()
            invariant
                k <= neighbor_indices@.len() <= 8,
                bits.len() == neighbor_indices@.len(),
                forall|n: int|
                    0 <= n < bits.len() ==> bits[n] == self.cells@[neighbor_indices@[n] as int].has_mine,
                forall|n: int|
                    0 <= n < neighbor_indices@.len() ==> #[trigger] neighbor_indices@[n]
                        < self.cells@.len(),
                count == count_true(bits.take(k as int)),
                0 <= count <= k,
            decreases neighbor_indices@.len() - k,
        {
            proof {
                assert(bits.take(k + 1).drop_last() =~= bits.take(k as int));
            }
            if self.cells[neighbor_indices[k]].has_mine {
                count += 1;
            }
            k += 1;
        }
        assert(bits.take(k as int) =~= bits);
        count
    }

    /// Sets the neighbour count of every safe cell to the number of mines
    /// around it, as `counted` says.
    pub fn set_cells_num_bomb_neighbors(&mut self)
        requires
            old(self).wf(),
        ensures
            final(self)@ == old(self)@.counted(),
            final(self).wf(),
            forall|i: int|
                0 <= i < final(self).cells@.len() && !(#[trigger] final(self).cells@[i]).has_mine
                    ==> 0 <= final(self).cells@[i].neighboring_mines <= 8,
    {
        let ghost start = self@;
        let ghost goal = start.counted();
        let total = self.cells.len();
        let mut i: usize = 0;
        while i < total
            invariant
                self.wf(),
                start.well_formed(),
                goal == start.counted(),
                total == start.cells.len(),
                i <= total,
                self.mines == start.mines,
                self.rows == start.rows,
                self.columns == start.columns,
                self.flags_placed == start.flags_placed,
                self.cells@.len() == total,
                forall|j: int| 0 <= j < i ==> self.cells@[j] == goal.cells[j],
                forall|j: int| i <= j < total ==> self.cells@[j] == start.cells[j],
            decreases total - i,
        {
            if !self.cells[i].has_mine {
                let count = self.count_neighboring_bombs(i);
                proof {
                    assert forall|j: int| 0 <= j < total implies self.cells@[j].has_mine
                        == start.cells[j].has_mine by {
                        if j < i {
                            assert(self.cells@[j] == goal.cells[j]);
                        }
                    }
                    lemma_same_mines_same_count(self@, start, i as int);
                    lemma_state_total_update(
                        self.cells@,
                        i as int,
                        with_count(self.cells@[i as int], count as int),
                        CellState::Flagged,
                    );
                }
                self.cells[i].neighboring_mines = count;
            }
            i += 1;
        }
        assert(self.cells@ =~= goal.cells);
        assert forall|i: int|
            0 <= i < self.cells@.len() && !(#[trigger] self.cells@[i]).has_mine implies 0
            <= self.cells@[i].neighboring_mines <= 8 by {
            lemma_adjacent_mines_bounds(start, i);
        }
    }

    /// The number of flagged cells among those that touch the cell at index
    /// `target_idx`.
    pub fn count_neighboring_flags(&self, target_idx: usize) -> (count: i32)
        requires
            self.wf(),
        ensures
            count == self@.adjacent_flags(target_idx as int),
            0 <= count <= 8,
    {
        let indices_neighbors = self.get_neighbor_indices(target_idx);
        let ghost bits = Seq::new(
            indices_neighbors@.len(),
            |k: int| self.cells@[as_ints(indices_neighbors@)[k]].state == CellState::Flagged,
        );
        let mut count: i32 = 0;
        let mut k: usize = 0;
        while k < indices_neighbors.len()
            invariant
                k <= indices_neighbors@.len() <= 8,
                bits.len() == indices_neighbors@.len(),
                forall|n: int|
                    0 <= n < bits.len() ==> bits[n] == (self.cells@[indices_neighbors@[n] as int].state
                        == CellState::Flagged),
                forall|n: int|
                    0 <= n < indices_neighbors@.len() ==> #[trigger] indices_neighbors@[n]
                        < self.cells@.len(),
                count == count_true(bits.take(k as int)),
                0 <= count <= k,
            decreases indices_neighbors@.len() - k,
        {
            proof {
                assert(bits.take(k + 1).drop_last() =~= bits.take(k as int));
            }
            if self.cells[indices_neighbors[k]].state == CellState::Flagged {
                count += 1;
            }
            k += 1;
        }
        assert(bits.take(k as int) =~= bits);
        count
    }
}

} // verus!
