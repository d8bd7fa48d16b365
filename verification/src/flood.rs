//! What a cascade reveals, as a statement about paths over the grid.
//!
//! A cascade that starts around an origin reveals a hidden cell exactly if
//! a chain of touching cells leads from the origin to it, every cell of the
//! chain hidden beforehand and every cell but the last without a mine
//! around it. Flagged and revealed cells stop the cascade.

use vstd::prelude::*;
use crate::cell::{Cell, CellState};
use crate::grid::adjacent;

verus! {

/// Whether a cascade passes through a cell: it is hidden and no mine touches it.
pub open spec fn passable(c: Cell) -> bool {
    c.state == CellState::Hidden && c.neighboring_mines == 0
}

/// The cell `c`, revealed.
pub open spec fn revealed(c: Cell) -> Cell {
    Cell { neighboring_mines: c.neighboring_mines, state: CellState::Revealed, has_mine: c.has_mine }
}

/// Whether `path` is a chain along which a cascade around `origin` runs:
/// its first cell touches the origin, each cell touches the next, all of
/// them are hidden, and all but the last have no mine around them.
pub open spec fn flood_path(
    cells: Seq<Cell>,
    rows: int,
    columns: int,
    origin: int,
    path: Seq<int>,
) -> bool {
    &&& path.len() > 0
    &&& adjacent(rows, columns, origin, path[0])
    &&& forall|k: int|
        0 <= k < path.len() ==> 0 <= #[trigger] path[k] < cells.len() && cells[path[k]].state
            == CellState::Hidden
    &&& forall|k: int|
        0 <= k < path.len() - 1 ==> cells[#[trigger] path[k]].neighboring_mines == 0 && adjacent(
            rows,
            columns,
            path[k],
            path[k + 1],
        )
}

/// Whether a cascade around `origin` reaches the cell at index `j`.
pub open spec fn flood_reaches(
    cells: Seq<Cell>,
    rows: int,
    columns: int,
    origin: int,
    j: int,
) -> bool {
    exists|path: Seq<int>| #[trigger]
        flood_path(cells, rows, columns, origin, path) && path.last() == j
}

/// The cells after a cascade around `origin`: every cell that it reaches is
/// revealed, every other cell is as it was.
pub open spec fn after_flood(cells: Seq<Cell>, rows: int, columns: int, origin: int) -> Seq<Cell> {
    Seq::new(
        cells.len(),
        |j: int|
            if flood_reaches(cells, rows, columns, origin, j) {
                revealed(cells[j])
            } else {
                cells[j]
            },
    )
}

/// A cell that a cascade reaches is a hidden cell of the grid.
pub proof fn lemma_reached_is_hidden(cells: Seq<Cell>, rows: int, columns: int, origin: int, j: int)
    requires
        flood_reaches(cells, rows, columns, origin, j),
    ensures
        0 <= j < cells.len(),
        cells[j].state == CellState::Hidden,
{
    let path = choose|path: Seq<int>| #[trigger]
        flood_path(cells, rows, columns, origin, path) && path.last() == j;
    assert(path[path.len() - 1] == j);
}

/// A cascade reaches every hidden cell that touches the origin.
pub proof fn lemma_reaches_first(cells: Seq<Cell>, rows: int, columns: int, origin: int, j: int)
    requires
        adjacent(rows, columns, origin, j),
        0 <= j < cells.len(),
        cells[j].state == CellState::Hidden,
    ensures
        flood_reaches(cells, rows, columns, origin, j),
{
    let path = seq![j];
    assert(flood_path(cells, rows, columns, origin, path));
    assert(path.last() == j);
}

/// A cascade that reaches a cell without a mine around it goes on to every
/// hidden cell that touches that cell.
pub proof fn lemma_reaches_next(
    cells: Seq<Cell>,
    rows: int,
    columns: int,
    origin: int,
    s: int,
    j: int,
)
    requires
        flood_reaches(cells, rows, columns, origin, s),
        cells[s].neighboring_mines == 0,
        adjacent(rows, columns, s, j),
        0 <= j < cells.len(),
        cells[j].state == CellState::Hidden,
    ensures
        flood_reaches(cells, rows, columns, origin, j),
{
    let path = choose|path: Seq<int>| #[trigger]
        flood_path(cells, rows, columns, origin, path) && path.last() == s;
    let longer = path.push(j);
    assert forall|k: int| 0 <= k < longer.len() implies 0 <= #[trigger] longer[k] < cells.len()
        && cells[longer[k]].state == CellState::Hidden by {
        if k < path.len() {
            assert(longer[k] == path[k]);
        }
    }
    assert forall|k: int| 0 <= k < longer.len() - 1 implies cells[#[trigger] longer[k]].neighboring_mines
        == 0 && adjacent(rows, columns, longer[k], longer[k + 1]) by {
        assert(longer[k] == path[k]);
        if k < path.len() - 1 {
            assert(longer[k + 1] == path[k + 1]);
        }
    }
    assert(longer[0] == path[0]);
    assert(flood_path(cells, rows, columns, origin, longer));
    assert(longer.last() == j);
}

/// Whether, in `now`, every cell around `s` that was hidden in `before` is revealed.
pub open spec fn spread_from(
    before: Seq<Cell>,
    now: Seq<Cell>,
    rows: int,
    columns: int,
    s: int,
) -> bool {
    forall|j: int|
        #[trigger] adjacent(rows, columns, s, j) && j < before.len() && before[j].state
            == CellState::Hidden ==> now[j].state == CellState::Revealed
}

/// Whether the cascade spreads from `s`: `s` is the origin, or a cell that
/// let the cascade pass and is revealed by now.
pub open spec fn spreads(before: Seq<Cell>, now: Seq<Cell>, origin: int, s: int) -> bool {
    s == origin || (0 <= s < before.len() && passable(before[s]) && now[s].state
        == CellState::Revealed)
}

/// Whether `s` is dealt with: if the cascade spreads from `s` and `s` does
/// not wait in `pending`, the cells around it are revealed.
pub open spec fn settled(
    before: Seq<Cell>,
    now: Seq<Cell>,
    rows: int,
    columns: int,
    origin: int,
    pending: Seq<int>,
    s: int,
) -> bool {
    spreads(before, now, origin, s) && !pending.contains(s) ==> spread_from(
        before,
        now,
        rows,
        columns,
        s,
    )
}

/// Whether `now` differs from `before` only in cells that the cascade
/// reaches, each of them revealed.
pub open spec fn only_reached_revealed(
    before: Seq<Cell>,
    now: Seq<Cell>,
    rows: int,
    columns: int,
    origin: int,
) -> bool {
    &&& now.len() == before.len()
    &&& forall|j: int|
        0 <= j < before.len() ==> #[trigger] now[j] == before[j] || (now[j] == revealed(before[j])
            && flood_reaches(before, rows, columns, origin, j))
}

/// Once no cell waits and every cell is dealt with, all that the cascade
/// reaches is revealed: the cells are those of `after_flood`.
pub proof fn lemma_flood_complete(
    before: Seq<Cell>,
    now: Seq<Cell>,
    rows: int,
    columns: int,
    origin: int,
)
    requires
        only_reached_revealed(before, now, rows, columns, origin),
        forall|s: int| #[trigger] settled(before, now, rows, columns, origin, Seq::empty(), s),
    ensures
        now == after_flood(before, rows, columns, origin),
{
    let goal = after_flood(before, rows, columns, origin);
    assert forall|j: int| 0 <= j < before.len() implies now[j] == goal[j] by {
        if flood_reaches(before, rows, columns, origin, j) {
            let path = choose|path: Seq<int>| #[trigger]
                flood_path(before, rows, columns, origin, path) && path.last() == j;
            lemma_path_revealed(before, now, rows, columns, origin, path, path.len() - 1);
            assert(now[j].state == CellState::Revealed);
            assert(now[j] == revealed(before[j]));
        } else {
            assert(now[j] == before[j]);
        }
    }
    assert(now =~= goal);
}

/// Along a chain of the cascade every cell up to position `k` is revealed.
proof fn lemma_path_revealed(
    before: Seq<Cell>,
    now: Seq<Cell>,
    rows: int,
    columns: int,
    origin: int,
    path: Seq<int>,
    k: int,
)
    requires
        only_reached_revealed(before, now, rows, columns, origin),
        forall|s: int| #[trigger] settled(before, now, rows, columns, origin, Seq::empty(), s),
        flood_path(before, rows, columns, origin, path),
        0 <= k < path.len(),
    ensures
        now[path[k]].state == CellState::Revealed,
    decreases k,
{
    let empty = Seq::<int>::empty();
    if k == 0 {
        assert(settled(before, now, rows, columns, origin, empty, origin));
        assert(adjacent(rows, columns, origin, path[0]));
    } else {
        lemma_path_revealed(before, now, rows, columns, origin, path, k - 1);
        let s = path[k - 1];
        assert(settled(before, now, rows, columns, origin, empty, s));
        assert(passable(before[s]));
        assert(adjacent(rows, columns, s, path[k]));
    }
}

} // verus!
