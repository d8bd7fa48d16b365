//! The cascade that reveals a region of the board, run over a stack of
//! cells whose surroundings are still to be looked at.

use vstd::prelude::*;
use crate::board::{Board, BoardView};
use crate::cell::{Cell, CellState};
use crate::flood::{
    after_flood,
    flood_reaches,
    lemma_flood_complete,
    lemma_reaches_first,
    lemma_reaches_next,
    only_reached_revealed,
    revealed,
    settled,
    spread_from,
    spreads,
};
use crate::grid::{adjacent, lemma_neighbors_are_adjacent, neighbors};
use crate::neighbors::{as_ints, lemma_neighbors_on_grid};
use crate::tally::{lemma_count_bounds, lemma_state_total_update, state_bits, state_total};

verus! {

impl BoardView {
    /// The board after a cascade around the cell at index `origin`.
    pub open spec fn flooded(self, origin: int) -> BoardView {
        BoardView {
            mines: self.mines,
            rows: self.rows,
            columns: self.columns,
            flags_placed: self.flags_placed,
            cells: after_flood(self.cells, self.rows, self.columns, origin),
        }
    }
}

/// One step of the cascade: a hidden cell `j` next to `node` is revealed,
/// and waits in `pending` from then on if no mine touches it. The step
/// reveals only what the cascade reaches, and every cell but `node` stays
/// dealt with.
proof fn lemma_reveal_step(
    before: Seq<Cell>,
    now: Seq<Cell>,
    next: Seq<Cell>,
    rows: int,
    columns: int,
    origin: int,
    pending: Seq<int>,
    waiting: Seq<int>,
    node: int,
    j: int,
)
    requires
        only_reached_revealed(before, now, rows, columns, origin),
        0 <= j < now.len(),
        now[j].state == CellState::Hidden,
        adjacent(rows, columns, node, j),
        spreads(before, now, origin, node),
        forall|s: int|
            s != node ==> #[trigger] settled(before, now, rows, columns, origin, pending, s),
        next == now.update(j, revealed(now[j])),
        waiting == (if now[j].neighboring_mines == 0 {
            pending.push(j)
        } else {
            pending
        }),
    ensures
        only_reached_revealed(before, next, rows, columns, origin),
        forall|s: int|
            s != node ==> #[trigger] settled(before, next, rows, columns, origin, waiting, s),
        forall|s: int|
            spreads(before, now, origin, s) ==> #[trigger] spreads(before, next, origin, s),
        now[j].neighboring_mines == 0 ==> spreads(before, next, origin, j),
{
    assert(now[j] == before[j]);
    if node == origin {
        lemma_reaches_first(before, rows, columns, origin, j);
    } else {
        assert(now[node] == revealed(before[node]));
        lemma_reaches_next(before, rows, columns, origin, node, j);
    }
    assert forall|n: int| 0 <= n < before.len() implies #[trigger] next[n] == before[n] || (next[n]
        == revealed(before[n]) && flood_reaches(before, rows, columns, origin, n)) by {
        if n != j {
            assert(next[n] == now[n]);
        }
    }
    assert forall|s: int| s != node implies #[trigger] settled(
        before,
        next,
        rows,
        columns,
        origin,
        waiting,
        s,
    ) by {
        if spreads(before, next, origin, s) && !waiting.contains(s) {
            if now[j].neighboring_mines == 0 {
                assert(waiting[pending.len() as int] == j);
                assert(s != j);
            }
            assert(!pending.contains(s)) by {
                if pending.contains(s) {
                    let n = choose|n: int| 0 <= n < pending.len() && pending[n] == s;
                    assert(waiting[n] == s);
                }
            }
            if s != origin {
                assert(next[s] == now[s]);
            }
            assert(spreads(before, now, origin, s));
            assert(settled(before, now, rows, columns, origin, pending, s));
            assert(spread_from(before, now, rows, columns, s));
            assert forall|n: int|
                #[trigger] adjacent(rows, columns, s, n) && n < before.len() && before[n].state
                    == CellState::Hidden implies next[n].state == CellState::Revealed by {
                assert(now[n].state == CellState::Revealed);
            }
        }
    }
}

/// Once every neighbour of `node` that was hidden at the start is revealed,
/// `node` is dealt with.
proof fn lemma_node_spread(
    before: Seq<Cell>,
    now: Seq<Cell>,
    rows: int,
    columns: int,
    node: int,
)
    requires
        0 < columns,
        0 <= node,
        forall|k: int|
            0 <= k < neighbors(rows, columns, node).len() && before[#[trigger] neighbors(
                rows,
                columns,
                node,
            )[k]].state == CellState::Hidden ==> now[neighbors(rows, columns, node)[k]].state
                == CellState::Revealed,
    ensures
        spread_from(before, now, rows, columns, node),
{
    let around = neighbors(rows, columns, node);
    assert forall|j: int|
        #[trigger] adjacent(rows, columns, node, j) && j < before.len() && before[j].state
            == CellState::Hidden implies now[j].state == CellState::Revealed by {
        lemma_neighbors_are_adjacent(rows, columns, node, j);
        let k = choose|k: int| 0 <= k < around.len() && around[k] == j;
        assert(before[around[k]].state == CellState::Hidden);
    }
}

impl Board {
    /// Reveals every hidden cell around the cell at `index` and, from each
    /// revealed cell that no mine touches, goes on in the same way. Flagged
    /// and revealed cells are left alone and stop the cascade.
    pub fn reveal_neighbors(&mut self, index: usize)
        requires
            old(self).wf(),
        ensures
            final(self)@ == old(self)@.flooded(index as int),
            final(self).wf(),
    {
        let ghost before = self.cells@;
        let ghost start = self@;
        let ghost rows = self.rows as int;
        let ghost columns = self.columns as int;
        let ghost origin = index as int;
        let mut stack: Vec<usize> = Vec::new();
        stack.push(index);
        proof {
            assert forall|s: int| #[trigger]
                settled(before, self.cells@, rows, columns, origin, as_ints(stack@), s) by {
                if s == origin {
                    assert(as_ints(stack@)[0] == s);
                }
            }
            lemma_count_bounds(state_bits(self.cells@, CellState::Hidden));
        }
        while stack.len() > 0
            invariant
                self.wf(),
                self.rows == rows,
                self.columns == columns,
                self.mines == start.mines,
                self.flags_placed == start.flags_placed,
                only_reached_revealed(before, self.cells@, rows, columns, origin),
                forall|n: int|
                    0 <= n < stack@.len() ==> spreads(
                        before,
                        self.cells@,
                        origin,
                        #[trigger] stack@[n] as int,
                    ),
                forall|s: int| #[trigger]
                    settled(before, self.cells@, rows, columns, origin, as_ints(stack@), s),
                0 <= state_total(self.cells@, CellState::Hidden),
            decreases 2 * state_total(self.cells@, CellState::Hidden) + stack@.len(),
        {
            let ghost full = as_ints(stack@);
            let node = stack.pop().unwrap();
            let neighbor_indices = self.get_neighbor_indices(node);
            let ghost around = neighbors(rows, columns, node as int);
            let ghost hidden_at_pop = state_total(self.cells@, CellState::Hidden);
            let ghost len_after_pop = stack@.len();
            proof {
                assert forall|s: int| s != node implies #[trigger] settled(
                    before,
                    self.cells@,
                    rows,
                    columns,
                    origin,
                    as_ints(stack@),
                    s,
                ) by {
                    assert(settled(before, self.cells@, rows, columns, origin, full, s));
                    if full.contains(s) {
                        let n = choose|n: int| 0 <= n < full.len() && full[n] == s;
                        assert(as_ints(stack@)[n] == s);
                    }
                }
                lemma_neighbors_on_grid(rows, columns, node as int);
            }
            let mut k: usize = 0;
            while k < neighbor_indices.len()
                invariant
                    self.wf(),
                    self.rows == rows,
                    self.columns == columns,
                    self.mines == start.mines,
                    self.flags_placed == start.flags_placed,
                    k <= neighbor_indices@.len(),
                    as_ints(neighbor_indices@) == around,
                    around == neighbors(rows, columns, node as int),
                    forall|n: int|
                        0 <= n < around.len() ==> 0 <= #[trigger] around[n] < before.len()
                            && adjacent(rows, columns, node as int, around[n]),
                    only_reached_revealed(before, self.cells@, rows, columns, origin),
                    spreads(before, self.cells@, origin, node as int),
                    forall|n: int|
                        0 <= n < stack@.len() ==> spreads(
                            before,
                            self.cells@,
                            origin,
                            #[trigger] stack@[n] as int,
                        ),
                    forall|s: int|
                        s != node ==> #[trigger] settled(
                            before,
                            self.cells@,
                            rows,
                            columns,
                            origin,
                            as_ints(stack@),
                            s,
                        ),
                    forall|n: int|
                        0 <= n < k && before[#[trigger] around[n]].state == CellState::Hidden
                            ==> self.cells@[around[n]].state == CellState::Revealed,
                    0 <= state_total(self.cells@, CellState::Hidden),
                    2 * state_total(self.cells@, CellState::Hidden) + stack@.len() <= 2
                        * hidden_at_pop + len_after_pop,
                decreases neighbor_indices@.len() - k,
            {
                let j = neighbor_indices[k];
                assert(j as int == around[k as int]) by {
                    assert(as_ints(neighbor_indices@)[k as int] == j as int);
                }
                let ghost now = self.cells@;
                let ghost pending = as_ints(stack@);
                if self.cells[j].state == CellState::Hidden {
                    self.cells[j].state = CellState::Revealed;
                    assert(self.cells@ =~= now.update(j as int, revealed(now[j as int])));
                    if self.cells[j].neighboring_mines == 0 {
                        stack.push(j);
                        assert(as_ints(stack@) =~= pending.push(j as int));
                    }
                    proof {
                        lemma_reveal_step(
                            before,
                            now,
                            self.cells@,
                            rows,
                            columns,
                            origin,
                            pending,
                            as_ints(stack@),
                            node as int,
                            j as int,
                        );
                        lemma_state_total_update(
                            now,
                            j as int,
                            revealed(now[j as int]),
                            CellState::Hidden,
                        );
                        lemma_state_total_update(
                            now,
                            j as int,
                            revealed(now[j as int]),
                            CellState::Flagged,
                        );
                        lemma_count_bounds(state_bits(self.cells@, CellState::Hidden));
                    }
                }
                k += 1;
            }
            proof {
                lemma_node_spread(before, self.cells@, rows, columns, node as int);
            }
        }
        proof {
            assert(as_ints(stack@) =~= Seq::<int>::empty());
            lemma_flood_complete(before, self.cells@, rows, columns, origin);
            assert(self@ == start.flooded(origin));
        }
    }
}

} // verus!
