//! What holds of the board as a whole, proved from the definitions that the
//! contracts of its functions use.

use vstd::prelude::*;
use crate::board::{valid_dimensions, BoardView, Click};
use crate::cell::{Cell, CellState};
use crate::flood::{
    after_flood,
    flood_path,
    flood_reaches,
    lemma_reached_is_hidden,
    lemma_reaches_first,
    lemma_reaches_next,
    passable,
    revealed,
};
use crate::grid::{
    adjacent,
    column_of,
    in_grid,
    index_of,
    lemma_coords_round_trip,
    lemma_index_on_grid,
    lemma_index_round_trip,
    lemma_on_grid_iff_below,
    row_of,
};
use crate::placement::mined;
use crate::play::in_state;
use crate::tally::{
    lemma_count_full,
    lemma_count_update,
    lemma_count_zero,
    lemma_state_total_update,
    mine_bits,
    mine_total,
    state_bits,
    state_total,
};

verus! {

/// Every index of the grid splits into a row and a column on the grid that
/// join into the same index again.
pub proof fn theorem_index_round_trip(rows: int, columns: int, i: int)
    requires
        valid_dimensions(rows, columns),
        0 <= i < rows * columns,
    ensures
        in_grid(rows, columns, row_of(columns, i), column_of(columns, i)),
        index_of(columns, row_of(columns, i), column_of(columns, i)) == i,
{
    lemma_index_round_trip(columns, i);
    lemma_on_grid_iff_below(rows, columns, i);
}

/// Every position of the grid joins into an index of the grid that splits
/// into the same row and column again.
pub proof fn theorem_coords_round_trip(rows: int, columns: int, row: int, column: int)
    requires
        valid_dimensions(rows, columns),
        in_grid(rows, columns, row, column),
    ensures
        0 <= index_of(columns, row, column) < rows * columns,
        row_of(columns, index_of(columns, row, column)) == row,
        column_of(columns, index_of(columns, row, column)) == column,
{
    lemma_coords_round_trip(columns, row, column);
    lemma_index_on_grid(rows, columns, row, column);
}

/// A board without mines has room for its mines, whichever cell is avoided:
/// a placement on it is refused only for a position off the grid.
pub proof fn theorem_unmined_board_has_room(v: BoardView, avoid: int)
    requires
        v.well_formed(),
        mine_total(v.cells) == 0,
        0 <= avoid < v.cells.len(),
    ensures
        v.free_cells(avoid) == v.cells.len() - 1,
        v.free_cells(avoid) >= v.mines,
{
    lemma_count_zero(mine_bits(v.cells));
    let all = Seq::new(v.cells.len(), |i: int| true);
    assert forall|i: int| 0 <= i < v.cells.len() implies !v.cells[i].has_mine by {
        assert(!mine_bits(v.cells)[i]);
    }
    lemma_count_full(all);
    lemma_count_update(all, avoid, false);
    assert(v.free_bits(avoid) =~= all.update(avoid, false));
}

/// After a placement that succeeded on a board without mines, exactly
/// `mines` cells hold a mine, and the avoided cell is not among them.
pub proof fn theorem_placement_exact(
    before: BoardView,
    after: BoardView,
    avoid_row: int,
    avoid_column: int,
)
    requires
        before.well_formed(),
        mine_total(before.cells) == 0,
        before.placed_by(after, Ok(()), avoid_row, avoid_column),
    ensures
        before.on_grid(avoid_row, avoid_column),
        mine_total(after.cells) == before.mines,
        !after.cells[index_of(before.columns, avoid_row, avoid_column)].has_mine,
        after.well_formed(),
{
    let avoid = index_of(before.columns, avoid_row, avoid_column);
    lemma_index_on_grid(before.rows, before.columns, avoid_row, avoid_column);
    lemma_count_zero(mine_bits(before.cells));
    assert(!mine_bits(before.cells)[avoid]);
    assert(state_bits(after.cells, CellState::Flagged) =~= state_bits(
        before.cells,
        CellState::Flagged,
    )) by {
        assert forall|i: int| 0 <= i < before.cells.len() implies (after.cells[i].state
            == CellState::Flagged) == (before.cells[i].state == CellState::Flagged) by {
            assert(after.cells[i] == before.cells[i] || after.cells[i] == mined(
                before.cells[i],
            ));
        }
    }
}

/// A cascade leaves the flags where they are.
pub proof fn lemma_flood_keeps_flags(cells: Seq<Cell>, rows: int, columns: int, origin: int)
    ensures
        after_flood(cells, rows, columns, origin).len() == cells.len(),
        state_total(after_flood(cells, rows, columns, origin), CellState::Flagged) == state_total(
            cells,
            CellState::Flagged,
        ),
{
    let after = after_flood(cells, rows, columns, origin);
    assert forall|j: int| 0 <= j < cells.len() implies (after[j].state == CellState::Flagged) == (
    cells[j].state == CellState::Flagged) by {
        if flood_reaches(cells, rows, columns, origin, j) {
            lemma_reached_is_hidden(cells, rows, columns, origin, j);
        }
    }
    assert(state_bits(after, CellState::Flagged) =~= state_bits(cells, CellState::Flagged));
}

/// A click keeps the invariant of the board: afterwards `flags_placed` is
/// again the number of flagged cells.
pub proof fn theorem_click_keeps_invariant(v: BoardView, i: int, click: Click)
    requires
        v.well_formed(),
        0 <= i < v.cells.len(),
    ensures
        v.clicked(i, click).well_formed(),
        v.clicked(i, click).flags_placed == state_total(
            v.clicked(i, click).cells,
            CellState::Flagged,
        ),
{
    let cell = v.cells[i];
    lemma_state_total_update(v.cells, i, revealed(cell), CellState::Flagged);
    lemma_state_total_update(v.cells, i, in_state(cell, CellState::Flagged), CellState::Flagged);
    lemma_state_total_update(v.cells, i, in_state(cell, CellState::Hidden), CellState::Flagged);
    lemma_flood_keeps_flags(v.cells, v.rows, v.columns, i);
    lemma_flood_keeps_flags(v.cells.update(i, revealed(cell)), v.rows, v.columns, i);
}

/// The board after a sequence of clicks, each given by the index of its
/// cell and its kind, the first click first.
pub open spec fn played(v: BoardView, clicks: Seq<(int, Click)>) -> BoardView
    decreases clicks.len(),
{
    if clicks.len() == 0 {
        v
    } else {
        played(v, clicks.drop_last()).clicked(clicks.last().0, clicks.last().1)
    }
}

/// After any sequence of clicks on cells of the board, `flags_placed` is
/// the number of flagged cells.
pub proof fn theorem_flags_counted_after_play(v: BoardView, clicks: Seq<(int, Click)>)
    requires
        v.well_formed(),
        forall|k: int| 0 <= k < clicks.len() ==> 0 <= (#[trigger] clicks[k]).0 < v.cells.len(),
    ensures
        played(v, clicks).well_formed(),
        played(v, clicks).flags_placed == state_total(
            played(v, clicks).cells,
            CellState::Flagged,
        ),
        played(v, clicks).cells.len() == v.cells.len(),
    decreases clicks.len(),
{
    if clicks.len() > 0 {
        let earlier = clicks.drop_last();
        assert forall|k: int| 0 <= k < earlier.len() implies 0 <= (#[trigger] earlier[k]).0
            < v.cells.len() by {
            assert(earlier[k] == clicks[k]);
        }
        theorem_flags_counted_after_play(v, earlier);
        theorem_click_keeps_invariant(played(v, earlier), clicks.last().0, clicks.last().1);
    }
}

/// Two right clicks on the same cell leave the board as it was: a hidden
/// cell is flagged and hidden again, a flagged one hidden and flagged again,
/// and a revealed one is not touched.
pub proof fn theorem_toggle_twice(v: BoardView, i: int)
    requires
        0 <= i < v.cells.len(),
    ensures
        v.clicked(i, Click::Right).clicked(i, Click::Right) == v,
{
    let once = v.clicked(i, Click::Right);
    let twice = once.clicked(i, Click::Right);
    assert(twice.cells =~= v.cells);
}

/// A left click on a flagged cell and a right click on a revealed cell
/// change nothing, neither a cell nor the flag counter.
pub proof fn theorem_idle_clicks(v: BoardView, i: int)
    ensures
        v.cells[i].state == CellState::Flagged ==> v.clicked(i, Click::Left) == v,
        v.cells[i].state == CellState::Revealed ==> v.clicked(i, Click::Right) == v,
{
}

/// Whether `path` is a chain of touching cells that starts at index `i`,
/// every cell of it hidden and without a mine around it.
pub open spec fn region_path(
    cells: Seq<Cell>,
    rows: int,
    columns: int,
    i: int,
    path: Seq<int>,
) -> bool {
    &&& path.len() > 0
    &&& path[0] == i
    &&& forall|k: int|
        0 <= k < path.len() ==> 0 <= #[trigger] path[k] < cells.len() && passable(cells[path[k]])
    &&& forall|k: int|
        0 <= k < path.len() - 1 ==> adjacent(rows, columns, #[trigger] path[k], path[k + 1])
}

/// Whether the cell at `j` belongs to the region of `i`: the hidden cells
/// without a mine around them that a chain of such cells links to `i`.
pub open spec fn in_region(cells: Seq<Cell>, rows: int, columns: int, i: int, j: int) -> bool {
    exists|path: Seq<int>| #[trigger] region_path(cells, rows, columns, i, path) && path.last() == j
}

/// Whether the cell at `j` touches a cell of the region of `i`.
pub open spec fn borders_region(cells: Seq<Cell>, rows: int, columns: int, i: int, j: int) -> bool {
    exists|s: int| #[trigger] in_region(cells, rows, columns, i, s) && adjacent(rows, columns, s, j)
}

/// Every cell of a chain through the region of `i` is `i` itself or is
/// reached by the cascade that follows once `i` is revealed.
proof fn lemma_region_is_reached(
    cells: Seq<Cell>,
    rows: int,
    columns: int,
    i: int,
    path: Seq<int>,
    k: int,
)
    requires
        0 <= i < cells.len(),
        region_path(cells, rows, columns, i, path),
        0 <= k < path.len(),
    ensures
        path[k] == i || flood_reaches(
            cells.update(i, revealed(cells[i])),
            rows,
            columns,
            i,
            path[k],
        ),
    decreases k,
{
    let opened = cells.update(i, revealed(cells[i]));
    if k > 0 && path[k] != i {
        lemma_region_is_reached(cells, rows, columns, i, path, k - 1);
        assert(adjacent(rows, columns, path[k - 1], path[k]));
        assert(passable(cells[path[k]]));
        assert(passable(cells[path[k - 1]]));
        if path[k - 1] == i {
            lemma_reaches_first(opened, rows, columns, i, path[k]);
        } else {
            lemma_reaches_next(opened, rows, columns, i, path[k - 1], path[k]);
        }
    }
}

/// A cell that the cascade reaches once `i` is revealed touches a cell of
/// the region of `i`.
proof fn lemma_reached_borders_region(cells: Seq<Cell>, rows: int, columns: int, i: int, j: int)
    requires
        0 <= i < cells.len(),
        passable(cells[i]),
        flood_reaches(cells.update(i, revealed(cells[i])), rows, columns, i, j),
    ensures
        borders_region(cells, rows, columns, i, j),
{
    let opened = cells.update(i, revealed(cells[i]));
    let path = choose|path: Seq<int>| #[trigger]
        flood_path(opened, rows, columns, i, path) && path.last() == j;
    let chain = seq![i] + path.drop_last();
    assert forall|k: int| 0 <= k < chain.len() implies 0 <= #[trigger] chain[k] < cells.len()
        && passable(cells[chain[k]]) by {
        if k > 0 {
            assert(chain[k] == path[k - 1]);
            assert(opened[path[k - 1]].state == CellState::Hidden);
        }
    }
    assert forall|k: int| 0 <= k < chain.len() - 1 implies adjacent(
        rows,
        columns,
        #[trigger] chain[k],
        chain[k + 1],
    ) by {
        assert(chain[k + 1] == path[k]);
        if k > 0 {
            assert(chain[k] == path[k - 1]);
        }
    }
    assert(region_path(cells, rows, columns, i, chain));
    let s = chain.last();
    assert(in_region(cells, rows, columns, i, s));
    assert(adjacent(rows, columns, s, j)) by {
        if path.len() > 1 {
            assert(s == path[path.len() - 2]);
            assert(adjacent(rows, columns, path[path.len() - 2], path[path.len() - 2 + 1]));
        }
    }
}

/// A left click on a hidden cell without a mine around it reveals the
/// whole region of that cell and every hidden cell that touches the region,
/// and changes no other cell: a flagged or revealed cell stays as it is, and
/// so does a hidden cell away from the region.
pub proof fn theorem_cascade_covers_region(v: BoardView, i: int, j: int)
    requires
        0 <= i < v.cells.len(),
        passable(v.cells[i]),
        0 <= j < v.cells.len(),
    ensures
        v.clicked(i, Click::Left).cells[j] == (if v.cells[j].state == CellState::Hidden && (
        in_region(v.cells, v.rows, v.columns, i, j) || borders_region(
            v.cells,
            v.rows,
            v.columns,
            i,
            j,
        )) {
            revealed(v.cells[j])
        } else {
            v.cells[j]
        }),
{
    let cells = v.cells;
    let opened = cells.update(i, revealed(cells[i]));
    let after = after_flood(opened, v.rows, v.columns, i);
    assert(v.clicked(i, Click::Left).cells == after);
    let start = seq![i];
    assert(region_path(cells, v.rows, v.columns, i, start));
    assert(start.last() == i);
    assert(in_region(cells, v.rows, v.columns, i, i));
    if flood_reaches(opened, v.rows, v.columns, i, j) {
        lemma_reached_is_hidden(opened, v.rows, v.columns, i, j);
        lemma_reached_borders_region(cells, v.rows, v.columns, i, j);
    } else if j != i && cells[j].state == CellState::Hidden {
        if in_region(cells, v.rows, v.columns, i, j) {
            let path = choose|path: Seq<int>| #[trigger]
                region_path(cells, v.rows, v.columns, i, path) && path.last() == j;
            lemma_region_is_reached(cells, v.rows, v.columns, i, path, path.len() - 1);
        }
        if borders_region(cells, v.rows, v.columns, i, j) {
            let s = choose|s: int| #[trigger]
                in_region(cells, v.rows, v.columns, i, s) && adjacent(v.rows, v.columns, s, j);
            let path = choose|path: Seq<int>| #[trigger]
                region_path(cells, v.rows, v.columns, i, path) && path.last() == s;
            lemma_region_is_reached(cells, v.rows, v.columns, i, path, path.len() - 1);
            assert(passable(cells[path[path.len() - 1]]));
            if s == i {
                lemma_reaches_first(opened, v.rows, v.columns, i, j);
            } else {
                lemma_reaches_next(opened, v.rows, v.columns, i, s, j);
            }
        }
    }
}

} // verus!
