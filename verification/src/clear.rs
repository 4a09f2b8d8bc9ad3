//! Full-row detection, clearing and collapse.
//!
//! A row qualifies when every one of its cells is placed. All qualifying
//! rows vanish at once; the rows above them fall into the gap, order kept,
//! and as many fresh empty rows enter at the top as rows were cleared.

use vstd::prelude::*;

use crate::board::{Board, BoardBlockState, Grid, BOARD_COLS, BOARD_ROWS};

verus! {

/// Whether every cell of the row is placed.
pub open spec fn row_full(g: Grid, r: int) -> bool {
    forall|c: int| 0 <= c < g[r].len() ==> (#[trigger] g[r][c]).spec_is_placed()
}

/// The indices of the rows from `i` on that are not full, in ascending order.
pub open spec fn non_full_rows(g: Grid, i: int) -> Seq<int>
    decreases g.len() - i,
{
    if i < 0 || i >= g.len() {
        Seq::empty()
    } else if row_full(g, i) {
        non_full_rows(g, i + 1)
    } else {
        seq![i] + non_full_rows(g, i + 1)
    }
}

/// A row of nothing but empty cells.
pub open spec fn empty_row() -> Seq<BoardBlockState> {
    Seq::new(BOARD_COLS as nat, |c: int| BoardBlockState::Empty)
}

/// The grid after clearing: the rows that were not full, in their old order,
/// pushed to the bottom, with empty rows above them.
pub open spec fn collapsed(g: Grid) -> Grid {
    let keep = non_full_rows(g, 0);
    let k = g.len() - keep.len();
    Seq::new(g.len(), |r: int| if r < k {
        empty_row()
    } else {
        g[keep[r - k]]
    })
}

/// There are no more non-full rows from `i` on than rows from `i` on.
pub proof fn lemma_non_full_rows_len(g: Grid, i: int)
    requires
        0 <= i <= g.len(),
    ensures
        non_full_rows(g, i).len() <= g.len() - i,
    decreases g.len() - i,
{
    if i < g.len() {
        lemma_non_full_rows_len(g, i + 1);
    }
}

/// Every index that `non_full_rows` lists lies in `[i, g.len())` and names
/// a row that is not full.
pub proof fn lemma_non_full_rows_bounds(g: Grid, i: int)
    ensures
        forall|j: int|
            0 <= j < non_full_rows(g, i).len() ==> i <= #[trigger] non_full_rows(g, i)[j]
                < g.len() && !row_full(g, non_full_rows(g, i)[j]),
    decreases g.len() - i,
{
    if 0 <= i < g.len() {
        lemma_non_full_rows_bounds(g, i + 1);
        if !row_full(g, i) {
            assert forall|j: int| 0 <= j < non_full_rows(g, i).len() implies i
                <= #[trigger] non_full_rows(g, i)[j] < g.len() && !row_full(
                g,
                non_full_rows(g, i)[j],
            ) by {
                if j > 0 {
                    assert(non_full_rows(g, i)[j] == non_full_rows(g, i + 1)[j - 1]);
                }
            }
        }
    }
}

/// Collapsing keeps every surviving cell's value, so falling cells keep
/// their kinds.
pub proof fn lemma_collapsed_uniform(g: Grid, k: crate::board::Block)
    requires
        crate::board::grid_wf(g),
        crate::board::falling_uniform(g, k),
    ensures
        crate::board::falling_uniform(collapsed(g), k),
{
    let g1 = collapsed(g);
    let keep = non_full_rows(g, 0);
    lemma_non_full_rows_bounds(g, 0);
    lemma_non_full_rows_len(g, 0);
    assert forall|r: int, c: int| #[trigger] crate::board::falling_at(g1, r, c) implies g1[r][c]
        == (BoardBlockState::Falling { block_type: k }) by {
        let j = r - (g.len() - keep.len());
        if 0 <= j < keep.len() {
            assert(g1[r][c] == g[keep[j]][c]);
            assert(0 <= keep[j] < BOARD_ROWS);
            assert(crate::board::falling_at(g, keep[j], c));
        } else {
            assert(g1[r][c] == empty_row()[c]);
        }
    }
}

/// Collapsing keeps the grid well formed.
pub proof fn lemma_collapsed_wf(g: Grid)
    requires
        crate::board::grid_wf(g),
    ensures
        crate::board::grid_wf(collapsed(g)),
{
    let g1 = collapsed(g);
    let keep = non_full_rows(g, 0);
    lemma_non_full_rows_bounds(g, 0);
    lemma_non_full_rows_len(g, 0);
    assert forall|r: int| 0 <= r < g1.len() implies (#[trigger] g1[r]).len() == BOARD_COLS by {
        if r >= g.len() - keep.len() {
            assert(g1[r] == g[keep[r - (g.len() - keep.len())]]);
        } else {
            assert(g1[r] == empty_row());
        }
    }
}

/// Whether every cell of row `r` is placed, decided by scanning it.
pub fn row_is_full(board: &Board, r: usize) -> (full: bool)
    requires
        board.well_formed(),
        r < BOARD_ROWS,
    ensures
        full == row_full(board@, r as int),
{
    for c in 0..BOARD_COLS
        invariant
            board.well_formed(),
            r < BOARD_ROWS,
            forall|cc: int| 0 <= cc < c ==> (#[trigger] board@[r as int][cc]).spec_is_placed(),
    {
        if !board.get(r, c).is_placed() {
            return false;
        }
    }
    true
}

/// A fresh, fully empty row.
fn make_empty_row() -> (row: Vec<BoardBlockState>)
    ensures
        row@ == empty_row(),
{
    let mut row: Vec<BoardBlockState> = Vec::new();
    for c in 0..BOARD_COLS
        invariant
            row@.len() == c,
            forall|cc: int| 0 <= cc < c ==> row@[cc] == (BoardBlockState::Empty),
    {
        row.push(BoardBlockState::Empty);
    }
    proof {
        assert(row@ =~= empty_row());
    }
    row
}

/// A copy of row `r` of the board.
fn copy_row(board: &Board, r: usize) -> (row: Vec<BoardBlockState>)
    requires
        board.well_formed(),
        r < BOARD_ROWS,
    ensures
        row@ == board@[r as int],
{
    let mut row: Vec<BoardBlockState> = Vec::new();
    for c in 0..BOARD_COLS
        invariant
            board.well_formed(),
            r < BOARD_ROWS,
            row@.len() == c,
            forall|cc: int| 0 <= cc < c ==> row@[cc] == board@[r as int][cc],
    {
        row.push(board.get(r, c));
    }
    proof {
        assert(row@ =~= board@[r as int]);
    }
    row
}

/// Clear every full row and let the rows above fall into the gaps.
/// Reports how many rows were cleared.
pub fn clear_line(board: &mut Board) -> (cleared: usize)
    requires
        old(board).well_formed(),
    ensures
        final(board).well_formed(),
        final(board)@ == collapsed(old(board)@),
        cleared == BOARD_ROWS - non_full_rows(old(board)@, 0).len(),
{
    let ghost g0: Grid = board@;
    let mut keep_idx: Vec<usize> = Vec::new();
    for i in 0..BOARD_ROWS
        invariant
            board.well_formed(),
            board@ == g0,
            non_full_rows(g0, 0) =~= keep_idx@.map_values(|u: usize| u as int) + non_full_rows(
                g0,
                i as int,
            ),
            forall|j: int| 0 <= j < keep_idx@.len() ==> #[trigger] keep_idx@[j] < i,
    {
        let ghost pre = keep_idx@;
        if !row_is_full(board, i) {
            keep_idx.push(i);
            proof {
                assert(keep_idx@.map_values(|u: usize| u as int) =~= pre.map_values(
                    |u: usize| u as int,
                ) + seq![i as int]);
                assert(non_full_rows(g0, i as int) == seq![i as int] + non_full_rows(
                    g0,
                    i + 1,
                ));
                assert(non_full_rows(g0, 0) =~= keep_idx@.map_values(|u: usize| u as int)
                    + non_full_rows(g0, i + 1));
            }
        } else {
            proof {
                assert(non_full_rows(g0, i as int) == non_full_rows(g0, i + 1));
            }
        }
    }
    proof {
        assert(non_full_rows(g0, BOARD_ROWS as int) == Seq::<int>::empty());
        assert(non_full_rows(g0, 0) =~= keep_idx@.map_values(|u: usize| u as int));
        lemma_non_full_rows_len(g0, 0);
    }
    let cleared = BOARD_ROWS - keep_idx.len();
    let mut rows: Vec<Vec<BoardBlockState>> = Vec::new();
    for i in 0..cleared
        invariant
            rows@.len() == i,
            forall|rr: int| 0 <= rr < i ==> (#[trigger] rows@[rr])@ == empty_row(),
    {
        rows.push(make_empty_row());
    }
    let kept = keep_idx.len();
    for j in 0..kept
        invariant
            board.well_formed(),
            board@ == g0,
            kept == keep_idx@.len(),
            cleared == BOARD_ROWS - kept,
            non_full_rows(g0, 0) =~= keep_idx@.map_values(|u: usize| u as int),
            forall|jj: int| 0 <= jj < keep_idx@.len() ==> #[trigger] keep_idx@[jj] < BOARD_ROWS,
            rows@.len() == cleared + j,
            forall|rr: int| 0 <= rr < cleared ==> (#[trigger] rows@[rr])@ == empty_row(),
            forall|jj: int|
                0 <= jj < j ==> (#[trigger] rows@[cleared + jj])@ == g0[keep_idx@[jj] as int],
    {
        rows.push(copy_row(board, keep_idx[j]));
    }
    let ghost rseq: Seq<Vec<BoardBlockState>> = rows@;
    let ghost built: Seq<Seq<BoardBlockState>> = Seq::new(rseq.len(), |r: int| rseq[r]@);
    board.replace_grid(rows);
    proof {
        let keep = non_full_rows(g0, 0);
        lemma_non_full_rows_bounds(g0, 0);
        assert(board@ == built);
        assert(keep.len() == kept);
        assert(g0.len() == BOARD_ROWS);
        assert(built.len() == BOARD_ROWS);
        assert forall|r: int| 0 <= r < BOARD_ROWS implies built[r] =~= collapsed(g0)[r] by {
            if r >= cleared {
                let jj = r - cleared;
                assert(keep[jj] == keep_idx@.map_values(|u: usize| u as int)[jj]);
                assert(rseq[cleared + jj]@ == g0[keep_idx@[jj] as int]);
                assert(built[r] == g0[keep_idx@[jj] as int]);
            } else {
                assert(built[r] == empty_row());
            }
        }
        assert(board@ =~~= collapsed(g0));
    }
    cleared
}

} // verus!
