//! Counting: how many entries of a sequence of truth values hold, and from
//! that how many cells hold a mine or are in a given state.

use vstd::prelude::*;
use crate::cell::{Cell, CellState};

verus! {

/// The number of entries of `s` that are `true`.
pub open spec fn count_true(s: Seq<bool>) -> int
    decreases s.len(),
{
    if s.len() == 0 {
        0
    } else {
        count_true(s.drop_last()) + (if s.last() {
            1int
        } else {
            0int
        })
    }
}

/// For each cell, whether it holds a mine.
pub open spec fn mine_bits(cells: Seq<Cell>) -> Seq<bool> {
    Seq::new(cells.len(), |i: int| cells[i].has_mine)
}

/// For each cell, whether it is in state `state`.
pub open spec fn state_bits(cells: Seq<Cell>, state: CellState) -> Seq<bool> {
    Seq::new(cells.len(), |i: int| cells[i].state == state)
}

/// The number of cells that hold a mine.
pub open spec fn mine_total(cells: Seq<Cell>) -> int {
    count_true(mine_bits(cells))
}

/// The number of cells in state `state`.
pub open spec fn state_total(cells: Seq<Cell>, state: CellState) -> int {
    count_true(state_bits(cells, state))
}

/// The number of entries of `indices` at which `cells` holds a mine.
pub open spec fn mines_among(cells: Seq<Cell>, indices: Seq<int>) -> int {
    count_true(Seq::new(indices.len(), |k: int| cells[indices[k]].has_mine))
}

/// The number of entries of `indices` at which `cells` holds a flagged cell.
pub open spec fn flags_among(cells: Seq<Cell>, indices: Seq<int>) -> int {
    count_true(Seq::new(indices.len(), |k: int| cells[indices[k]].state == CellState::Flagged))
}

/// A count lies between zero and the length.
pub proof fn lemma_count_bounds(s: Seq<bool>)
    ensures
        0 <= count_true(s) <= s.len(),
    decreases s.len(),
{
    if s.len() > 0 {
        lemma_count_bounds(s.drop_last());
    }
}

/// Replacing one entry moves the count by the difference of old and new.
pub proof fn lemma_count_update(s: Seq<bool>, i: int, b: bool)
    requires
        0 <= i < s.len(),
    ensures
        count_true(s.update(i, b)) == count_true(s) - (if s[i] {
            1int
        } else {
            0int
        }) + (if b {
            1int
        } else {
            0int
        }),
    decreases s.len(),
{
    let t = s.update(i, b);
    if i == s.len() - 1 {
        assert(t.drop_last() =~= s.drop_last());
    } else {
        lemma_count_update(s.drop_last(), i, b);
        assert(t.drop_last() =~= s.drop_last().update(i, b));
    }
}

/// Replacing one cell moves the number of cells in a state by what the old
/// and the new cell add to it.
pub proof fn lemma_state_total_update(cells: Seq<Cell>, i: int, c: Cell, state: CellState)
    requires
        0 <= i < cells.len(),
    ensures
        state_total(cells.update(i, c), state) == state_total(cells, state) - (if cells[i].state
            == state {
            1int
        } else {
            0int
        }) + (if c.state == state {
            1int
        } else {
            0int
        }),
{
    lemma_count_update(state_bits(cells, state), i, c.state == state);
    assert(state_bits(cells.update(i, c), state) =~= state_bits(cells, state).update(
        i,
        c.state == state,
    ));
}

/// Replacing one cell moves the number of mines by what the old and the new
/// cell add to it.
pub proof fn lemma_mine_total_update(cells: Seq<Cell>, i: int, c: Cell)
    requires
        0 <= i < cells.len(),
    ensures
        mine_total(cells.update(i, c)) == mine_total(cells) - (if cells[i].has_mine {
            1int
        } else {
            0int
        }) + (if c.has_mine {
            1int
        } else {
            0int
        }),
{
    lemma_count_update(mine_bits(cells), i, c.has_mine);
    assert(mine_bits(cells.update(i, c)) =~= mine_bits(cells).update(i, c.has_mine));
}

/// The count is zero exactly if no entry holds.
pub proof fn lemma_count_zero(s: Seq<bool>)
    ensures
        count_true(s) == 0 <==> (forall|i: int| 0 <= i < s.len() ==> !s[i]),
    decreases s.len(),
{
    if s.len() > 0 {
        let t = s.drop_last();
        lemma_count_zero(t);
        lemma_count_bounds(t);
        if count_true(s) == 0 {
            assert forall|i: int| 0 <= i < s.len() implies !s[i] by {
                if i < t.len() {
                    assert(!t[i]);
                }
            }
        }
        if forall|i: int| 0 <= i < s.len() ==> !s[i] {
            assert forall|i: int| 0 <= i < t.len() implies !t[i] by {
                assert(!s[i]);
            }
        }
    }
}

/// The count is the length exactly if every entry holds.
pub proof fn lemma_count_full(s: Seq<bool>)
    ensures
        count_true(s) == s.len() <==> (forall|i: int| 0 <= i < s.len() ==> s[i]),
    decreases s.len(),
{
    if s.len() > 0 {
        let t = s.drop_last();
        lemma_count_full(t);
        lemma_count_bounds(t);
        if count_true(s) == s.len() {
            assert forall|i: int| 0 <= i < s.len() implies s[i] by {
                if i < t.len() {
                    assert(t[i]);
                }
            }
        }
        if forall|i: int| 0 <= i < s.len() ==> s[i] {
            assert forall|i: int| 0 <= i < t.len() implies t[i] by {
                assert(s[i]);
            }
        }
    }
}

} // verus!
