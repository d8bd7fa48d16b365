//! The geometry of the grid: how a cell's row and column map to its place
//! in row-major storage, and which cells touch which.

use vstd::prelude::*;
use vstd::arithmetic::div_mod::{
    lemma_div_pos_is_pos,
    lemma_fundamental_div_mod,
    lemma_fundamental_div_mod_converse,
    lemma_mod_pos_bound,
};

verus! {

/// The storage index of the cell at `(row, column)` in a grid that is
/// `columns` wide.
pub open spec fn index_of(columns: int, row: int, column: int) -> int {
    row * columns + column
}

/// The row of the cell stored at index `i`.
pub open spec fn row_of(columns: int, i: int) -> int {
    i / columns
}

/// The column of the cell stored at index `i`.
pub open spec fn column_of(columns: int, i: int) -> int {
    i % columns
}

/// Whether `(row, column)` lies on a grid of `rows` by `columns` cells.
pub open spec fn in_grid(rows: int, columns: int, row: int, column: int) -> bool {
    0 <= row < rows && 0 <= column < columns
}

/// Whether the cell stored at `j` lies on the grid and touches the position
/// of index `i`, by an edge or by a corner. No cell touches itself.
pub open spec fn adjacent(rows: int, columns: int, i: int, j: int) -> bool {
    let dr = row_of(columns, j) - row_of(columns, i);
    let dc = column_of(columns, j) - column_of(columns, i);
    &&& 0 <= j
    &&& in_grid(rows, columns, row_of(columns, j), column_of(columns, j))
    &&& -1 <= dr <= 1
    &&& -1 <= dc <= 1
    &&& !(dr == 0 && dc == 0)
}

/// The neighbour of `i` that lies `dr` rows and `dc` columns away, as a
/// sequence of one index, or of none where that position is off the grid.
pub open spec fn neighbor_at(rows: int, columns: int, i: int, dr: int, dc: int) -> Seq<int> {
    let row = row_of(columns, i) + dr;
    let column = column_of(columns, i) + dc;
    if in_grid(rows, columns, row, column) {
        seq![index_of(columns, row, column)]
    } else {
        Seq::empty()
    }
}

/// The neighbours of `i` from one column, `dc` columns away, from the row
/// above to the row below.
pub open spec fn neighbors_in_column(rows: int, columns: int, i: int, dc: int) -> Seq<int> {
    neighbor_at(rows, columns, i, -1, dc) + (if dc == 0 {
        Seq::empty()
    } else {
        neighbor_at(rows, columns, i, 0, dc)
    }) + neighbor_at(rows, columns, i, 1, dc)
}

/// The indices of the up to eight cells that touch index `i`: the column to
/// the left first, then the cell's own column, then the column to the right.
pub open spec fn neighbors(rows: int, columns: int, i: int) -> Seq<int> {
    neighbors_in_column(rows, columns, i, -1) + neighbors_in_column(rows, columns, i, 0)
        + neighbors_in_column(rows, columns, i, 1)
}

/// An index splits into a row and a column that give the index back.
pub proof fn lemma_index_round_trip(columns: int, i: int)
    requires
        0 < columns,
        0 <= i,
    ensures
        index_of(columns, row_of(columns, i), column_of(columns, i)) == i,
        0 <= row_of(columns, i),
        0 <= column_of(columns, i) < columns,
{
    lemma_fundamental_div_mod(i, columns);
    lemma_mod_pos_bound(i, columns);
    lemma_div_pos_is_pos(i, columns);
    assert(columns * (i / columns) == (i / columns) * columns) by (nonlinear_arith);
}

/// A row and a column join into an index that splits into the same two.
pub proof fn lemma_coords_round_trip(columns: int, row: int, column: int)
    requires
        0 <= column < columns,
    ensures
        row_of(columns, index_of(columns, row, column)) == row,
        column_of(columns, index_of(columns, row, column)) == column,
{
    lemma_fundamental_div_mod_converse(index_of(columns, row, column), columns, row, column);
}

/// A position on the grid is stored below `rows * columns`.
pub proof fn lemma_index_on_grid(rows: int, columns: int, row: int, column: int)
    requires
        in_grid(rows, columns, row, column),
    ensures
        0 <= index_of(columns, row, column) < rows * columns,
{
    assert(0 <= row * columns && row * columns + columns <= rows * columns) by (nonlinear_arith)
        requires
            0 <= row < rows,
            0 < columns,
    ;
}

/// An index below `rows * columns`, and no other, is that of a position on the grid.
pub proof fn lemma_on_grid_iff_below(rows: int, columns: int, i: int)
    requires
        0 < columns,
        0 <= i,
    ensures
        in_grid(rows, columns, row_of(columns, i), column_of(columns, i)) <==> i < rows * columns,
{
    lemma_index_round_trip(columns, i);
    let row = row_of(columns, i);
    let column = column_of(columns, i);
    if row < rows {
        lemma_index_on_grid(rows, columns, row, column);
    } else {
        assert(rows * columns <= row * columns) by (nonlinear_arith)
            requires
                rows <= row,
                0 < columns,
        ;
    }
}

/// The one index that `neighbor_at` can give is adjacent, and it is the
/// only index at that offset.
proof fn lemma_neighbor_at(rows: int, columns: int, i: int, dr: int, dc: int, j: int)
    requires
        0 < columns,
        0 <= i,
        -1 <= dr <= 1,
        -1 <= dc <= 1,
    ensures
        neighbor_at(rows, columns, i, dr, dc).contains(j) <==> (0 <= j && in_grid(
            rows,
            columns,
            row_of(columns, j),
            column_of(columns, j),
        ) && row_of(columns, j) - row_of(columns, i) == dr && column_of(columns, j) - column_of(
            columns,
            i,
        ) == dc),
{
    let row = row_of(columns, i) + dr;
    let column = column_of(columns, i) + dc;
    let s = neighbor_at(rows, columns, i, dr, dc);
    if in_grid(rows, columns, row, column) {
        let n = index_of(columns, row, column);
        lemma_coords_round_trip(columns, row, column);
        lemma_index_on_grid(rows, columns, row, column);
        assert(s[0] == n);
        if s.contains(j) {
            assert(j == n);
        }
        if 0 <= j && row_of(columns, j) == row && column_of(columns, j) == column {
            lemma_index_round_trip(columns, j);
            assert(j == n);
            assert(s.contains(j));
        }
    } else {
        assert(!s.contains(j));
    }
}

/// The sequence of neighbours holds exactly the adjacent indices.
pub proof fn lemma_neighbors_are_adjacent(rows: int, columns: int, i: int, j: int)
    requires
        0 < columns,
        0 <= i,
    ensures
        neighbors(rows, columns, i).contains(j) <==> adjacent(rows, columns, i, j),
{
    let n = |dr: int, dc: int| neighbor_at(rows, columns, i, dr, dc);
    lemma_neighbor_at(rows, columns, i, -1, -1, j);
    lemma_neighbor_at(rows, columns, i, 0, -1, j);
    lemma_neighbor_at(rows, columns, i, 1, -1, j);
    lemma_neighbor_at(rows, columns, i, -1, 0, j);
    lemma_neighbor_at(rows, columns, i, 1, 0, j);
    lemma_neighbor_at(rows, columns, i, -1, 1, j);
    lemma_neighbor_at(rows, columns, i, 0, 1, j);
    lemma_neighbor_at(rows, columns, i, 1, 1, j);
    lemma_concat_contains(n(-1, -1), n(0, -1), j);
    lemma_concat_contains(n(-1, -1) + n(0, -1), n(1, -1), j);
    lemma_concat_contains(n(-1, 0), Seq::empty(), j);
    lemma_concat_contains(n(-1, 0) + Seq::empty(), n(1, 0), j);
    lemma_concat_contains(n(-1, 1), n(0, 1), j);
    lemma_concat_contains(n(-1, 1) + n(0, 1), n(1, 1), j);
    lemma_concat_contains(
        neighbors_in_column(rows, columns, i, -1),
        neighbors_in_column(rows, columns, i, 0),
        j,
    );
    lemma_concat_contains(
        neighbors_in_column(rows, columns, i, -1) + neighbors_in_column(rows, columns, i, 0),
        neighbors_in_column(rows, columns, i, 1),
        j,
    );
    assert(!Seq::<int>::empty().contains(j));
}

/// A value is in a concatenation exactly if it is in one of the two parts.
pub proof fn lemma_concat_contains(a: Seq<int>, b: Seq<int>, j: int)
    ensures
        (a + b).contains(j) <==> a.contains(j) || b.contains(j),
{
    if a.contains(j) {
        let k = choose|k: int| 0 <= k < a.len() && a[k] == j;
        assert((a + b)[k] == j);
    }
    if b.contains(j) {
        let k = choose|k: int| 0 <= k < b.len() && b[k] == j;
        assert((a + b)[a.len() + k] == j);
    }
    if (a + b).contains(j) {
        let k = choose|k: int| 0 <= k < (a + b).len() && (a + b)[k] == j;
        if k < a.len() {
            assert(a[k] == j);
        } else {
            assert(b[k - a.len()] == j);
        }
    }
}

} // verus!
