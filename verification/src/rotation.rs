//! Rotation of the falling piece about its bounding box.
//!
//! The falling cells' bounding box, of height `h` and width `w`, is padded
//! to a square window whose side is 3 (4 for the I piece), anchored at the
//! box's top-left corner. A clockwise quarter turn sends the cell at box
//! offset `(i, j)` to offset `(j, h - 1 - i)`, so the turned piece again
//! sits flush against the same corner; four turns restore it exactly. The
//! turn is rejected -- the board is left untouched -- when the window
//! would leave the board or when any destination holds a placed cell, and
//! the O piece never rotates.

use vstd::prelude::*;

use crate::board::{
    falling_at, grid_wf, has_falling, on_board, placed_at, Block, Board, BoardBlockState, Grid,
    BOARD_COLS, BOARD_ROWS,
};

verus! {

/// Whether some cell of row `r` is falling.
pub open spec fn row_has_falling(g: Grid, r: int) -> bool {
    exists|c: int| falling_at(g, r, c)
}

/// Whether some cell of column `c` is falling.
pub open spec fn col_has_falling(g: Grid, c: int) -> bool {
    exists|r: int| falling_at(g, r, c)
}

/// The first row from `i` down the board with a falling cell, or the row
/// count if there is none.
pub open spec fn first_falling_row(g: Grid, i: int) -> int
    decreases BOARD_ROWS - i,
{
    if i >= BOARD_ROWS {
        BOARD_ROWS as int
    } else if row_has_falling(g, i) {
        i
    } else {
        first_falling_row(g, i + 1)
    }
}

/// The last row from `i` up the board with a falling cell, or -1 if there
/// is none.
pub open spec fn last_falling_row(g: Grid, i: int) -> int
    decreases i + 1,
{
    if i < 0 {
        -1
    } else if row_has_falling(g, i) {
        i
    } else {
        last_falling_row(g, i - 1)
    }
}

/// The first column from `i` rightward with a falling cell, or the column
/// count if there is none.
pub open spec fn first_falling_col(g: Grid, i: int) -> int
    decreases BOARD_COLS - i,
{
    if i >= BOARD_COLS {
        BOARD_COLS as int
    } else if col_has_falling(g, i) {
        i
    } else {
        first_falling_col(g, i + 1)
    }
}

/// The last column from `i` leftward with a falling cell, or -1 if there
/// is none.
pub open spec fn last_falling_col(g: Grid, i: int) -> int
    decreases i + 1,
{
    if i < 0 {
        -1
    } else if col_has_falling(g, i) {
        i
    } else {
        last_falling_col(g, i - 1)
    }
}

/// Topmost row of the falling piece.
pub open spec fn row_min(g: Grid) -> int {
    first_falling_row(g, 0)
}

/// Bottommost row of the falling piece.
pub open spec fn row_max(g: Grid) -> int {
    last_falling_row(g, BOARD_ROWS - 1)
}

/// Leftmost column of the falling piece.
pub open spec fn col_min(g: Grid) -> int {
    first_falling_col(g, 0)
}

/// Rightmost column of the falling piece.
pub open spec fn col_max(g: Grid) -> int {
    last_falling_col(g, BOARD_COLS - 1)
}

/// Height of the falling piece's bounding box.
pub open spec fn piece_height(g: Grid) -> int {
    row_max(g) - row_min(g) + 1
}

/// Width of the falling piece's bounding box.
pub open spec fn piece_width(g: Grid) -> int {
    col_max(g) - col_min(g) + 1
}

/// Where the falling cell at `(r, c)` lands under a quarter turn.
pub open spec fn dest_of(g: Grid, cw: bool, r: int, c: int) -> (int, int) {
    let rm = row_min(g);
    let cm = col_min(g);
    if cw {
        (rm + (c - cm), cm + (piece_height(g) - 1) - (r - rm))
    } else {
        (rm + (piece_width(g) - 1) - (c - cm), cm + (r - rm))
    }
}

/// Where the cell that lands at `(r, c)` under a quarter turn comes from.
pub open spec fn src_of(g: Grid, cw: bool, r: int, c: int) -> (int, int) {
    let rm = row_min(g);
    let cm = col_min(g);
    if cw {
        (rm + (piece_height(g) - 1) - (c - cm), cm + (r - rm))
    } else {
        (rm + (c - cm), cm + (piece_width(g) - 1) - (r - rm))
    }
}

/// Whether a piece is falling and its square rotation window of side `n`
/// lies on the board.
pub open spec fn rotation_fits(g: Grid, n: int) -> bool {
    &&& has_falling(g)
    &&& piece_height(g) <= n
    &&& piece_width(g) <= n
    &&& row_min(g) + n <= BOARD_ROWS
    &&& col_min(g) + n <= BOARD_COLS
}

/// Whether no falling cell's destination holds a placed cell.
pub open spec fn rotation_unblocked(g: Grid, cw: bool) -> bool {
    forall|r: int, c: int|
        #[trigger] falling_at(g, r, c) ==> !placed_at(
            g,
            dest_of(g, cw, r, c).0,
            dest_of(g, cw, r, c).1,
        )
}

/// Whether the quarter turn goes ahead: the kind rotates at all, the
/// window fits, and no placed cell is in the way.
pub open spec fn rotation_applies(g: Grid, block: Block, cw: bool) -> bool {
    &&& block != (Block::O)
    &&& rotation_fits(g, block.spec_window() as int)
    &&& rotation_unblocked(g, cw)
}

/// What one rotation call does to the grid: the quarter turn where it
/// applies, and nothing otherwise.
pub open spec fn rotate_step(g: Grid, block: Block, cw: bool) -> Grid {
    if rotation_applies(g, block, cw) {
        rotated(g, cw)
    } else {
        g
    }
}

/// The grid after the quarter turn: each falling cell moves to its
/// destination, vacated cells empty out, and every other cell keeps its
/// value.
pub open spec fn rotated(g: Grid, cw: bool) -> Grid {
    Seq::new(
        g.len(),
        |r: int|
            Seq::new(
                g[r].len(),
                |c: int|
                    if falling_at(g, src_of(g, cw, r, c).0, src_of(g, cw, r, c).1) {
                        g[src_of(g, cw, r, c).0][src_of(g, cw, r, c).1]
                    } else if falling_at(g, r, c) {
                        BoardBlockState::Empty
                    } else {
                        g[r][c]
                    },
            ),
    )
}

/// A quarter turn moves falling cells without changing their kinds.
pub proof fn lemma_rotated_uniform(g: Grid, cw: bool, k: Block)
    requires
        grid_wf(g),
        crate::board::falling_uniform(g, k),
    ensures
        crate::board::falling_uniform(rotated(g, cw), k),
{
    let g1 = rotated(g, cw);
    assert forall|r: int, c: int| #[trigger] falling_at(g1, r, c) implies g1[r][c] == (
    BoardBlockState::Falling { block_type: k }) by {
        let s = src_of(g, cw, r, c);
        if falling_at(g, s.0, s.1) {
            assert(g1[r][c] == g[s.0][s.1]);
        }
    }
}

/// A rotation call moves falling cells without changing their kinds.
pub proof fn lemma_rotate_step_uniform(g: Grid, block: Block, cw: bool, k: Block)
    requires
        grid_wf(g),
        crate::board::falling_uniform(g, k),
    ensures
        crate::board::falling_uniform(rotate_step(g, block, cw), k),
{
    if rotation_applies(g, block, cw) {
        lemma_rotated_uniform(g, cw, k);
    }
}

/// `first_falling_row` finds a row with a falling cell, and none lies
/// before it.
pub proof fn lemma_first_falling_row(g: Grid, i: int)
    requires
        0 <= i <= BOARD_ROWS,
    ensures
        i <= first_falling_row(g, i) <= BOARD_ROWS,
        first_falling_row(g, i) < BOARD_ROWS ==> row_has_falling(g, first_falling_row(g, i)),
        forall|r: int| i <= r < first_falling_row(g, i) ==> !row_has_falling(g, r),
    decreases BOARD_ROWS - i,
{
    if i < BOARD_ROWS && !row_has_falling(g, i) {
        lemma_first_falling_row(g, i + 1);
    }
}

/// `last_falling_row` finds a row with a falling cell, and none lies
/// after it.
pub proof fn lemma_last_falling_row(g: Grid, i: int)
    requires
        -1 <= i < BOARD_ROWS,
    ensures
        -1 <= last_falling_row(g, i) <= i,
        last_falling_row(g, i) >= 0 ==> row_has_falling(g, last_falling_row(g, i)),
        forall|r: int| last_falling_row(g, i) < r <= i ==> !row_has_falling(g, r),
    decreases i + 1,
{
    if i >= 0 && !row_has_falling(g, i) {
        lemma_last_falling_row(g, i - 1);
    }
}

/// `first_falling_col` finds a column with a falling cell, and none lies
/// before it.
pub proof fn lemma_first_falling_col(g: Grid, i: int)
    requires
        0 <= i <= BOARD_COLS,
    ensures
        i <= first_falling_col(g, i) <= BOARD_COLS,
        first_falling_col(g, i) < BOARD_COLS ==> col_has_falling(g, first_falling_col(g, i)),
        forall|c: int| i <= c < first_falling_col(g, i) ==> !col_has_falling(g, c),
    decreases BOARD_COLS - i,
{
    if i < BOARD_COLS && !col_has_falling(g, i) {
        lemma_first_falling_col(g, i + 1);
    }
}

/// `last_falling_col` finds a column with a falling cell, and none lies
/// after it.
pub proof fn lemma_last_falling_col(g: Grid, i: int)
    requires
        -1 <= i < BOARD_COLS,
    ensures
        -1 <= last_falling_col(g, i) <= i,
        last_falling_col(g, i) >= 0 ==> col_has_falling(g, last_falling_col(g, i)),
        forall|c: int| last_falling_col(g, i) < c <= i ==> !col_has_falling(g, c),
    decreases i + 1,
{
    if i >= 0 && !col_has_falling(g, i) {
        lemma_last_falling_col(g, i - 1);
    }
}

/// When a piece is falling, its bounding box edges lie on the board, carry
/// falling cells, and bound every falling cell.
pub proof fn lemma_bbox(g: Grid)
    requires
        has_falling(g),
    ensures
        0 <= row_min(g) <= row_max(g) < BOARD_ROWS,
        0 <= col_min(g) <= col_max(g) < BOARD_COLS,
        row_has_falling(g, row_min(g)),
        row_has_falling(g, row_max(g)),
        col_has_falling(g, col_min(g)),
        col_has_falling(g, col_max(g)),
        forall|r: int, c: int|
            #[trigger] falling_at(g, r, c) ==> row_min(g) <= r <= row_max(g) && col_min(g) <= c
                <= col_max(g),
{
    lemma_first_falling_row(g, 0);
    lemma_last_falling_row(g, BOARD_ROWS - 1);
    lemma_first_falling_col(g, 0);
    lemma_last_falling_col(g, BOARD_COLS - 1);
    let (wr, wc) = choose|r: int, c: int| falling_at(g, r, c);
    assert(row_has_falling(g, wr));
    assert(col_has_falling(g, wc));
    assert forall|r: int, c: int| #[trigger] falling_at(g, r, c) implies row_min(g) <= r
        <= row_max(g) && col_min(g) <= c <= col_max(g) by {
        assert(row_has_falling(g, r));
        assert(col_has_falling(g, c));
    }
}

/// A value with a falling cell in its row, at or above every falling cell,
/// is the piece's topmost row.
pub proof fn lemma_row_min_is(g: Grid, rm: int)
    requires
        row_has_falling(g, rm),
        forall|r: int, c: int| #[trigger] falling_at(g, r, c) ==> r >= rm,
    ensures
        row_min(g) == rm,
{
    let wc = choose|c: int| falling_at(g, rm, c);
    assert(falling_at(g, rm, wc));
    lemma_first_falling_row(g, 0);
    if row_min(g) < BOARD_ROWS {
        let wc2 = choose|c: int| falling_at(g, row_min(g), c);
        assert(falling_at(g, row_min(g), wc2) ==> row_min(g) >= rm);
    }
}

/// A value with a falling cell in its row, at or below every falling cell,
/// is the piece's bottommost row.
pub proof fn lemma_row_max_is(g: Grid, rm: int)
    requires
        row_has_falling(g, rm),
        forall|r: int, c: int| #[trigger] falling_at(g, r, c) ==> r <= rm,
    ensures
        row_max(g) == rm,
{
    let wc = choose|c: int| falling_at(g, rm, c);
    assert(falling_at(g, rm, wc));
    lemma_last_falling_row(g, BOARD_ROWS - 1);
    if row_max(g) >= 0 {
        let wc2 = choose|c: int| falling_at(g, row_max(g), c);
        assert(falling_at(g, row_max(g), wc2) ==> row_max(g) <= rm);
    }
}

/// A value with a falling cell in its column, at or left of every falling
/// cell, is the piece's leftmost column.
pub proof fn lemma_col_min_is(g: Grid, cm: int)
    requires
        col_has_falling(g, cm),
        forall|r: int, c: int| #[trigger] falling_at(g, r, c) ==> c >= cm,
    ensures
        col_min(g) == cm,
{
    let wr = choose|r: int| falling_at(g, r, cm);
    assert(falling_at(g, wr, cm));
    lemma_first_falling_col(g, 0);
    if col_min(g) < BOARD_COLS {
        let wr2 = choose|r: int| falling_at(g, r, col_min(g));
        assert(falling_at(g, wr2, col_min(g)) ==> col_min(g) >= cm);
    }
}

/// A value with a falling cell in its column, at or right of every falling
/// cell, is the piece's rightmost column.
pub proof fn lemma_col_max_is(g: Grid, cm: int)
    requires
        col_has_falling(g, cm),
        forall|r: int, c: int| #[trigger] falling_at(g, r, c) ==> c <= cm,
    ensures
        col_max(g) == cm,
{
    let wr = choose|r: int| falling_at(g, r, cm);
    assert(falling_at(g, wr, cm));
    lemma_last_falling_col(g, BOARD_COLS - 1);
    if col_max(g) >= 0 {
        let wr2 = choose|r: int| falling_at(g, r, col_max(g));
        assert(falling_at(g, wr2, col_max(g)) ==> col_max(g) <= cm);
    }
}

/// That `g1` is `g` turned one clockwise quarter: the bounding box keeps
/// its corner with height and width swapped, the falling cells are exactly
/// the images of the old falling cells, placed cells are untouched, and
/// every cell's value follows from its source.
pub open spec fn quarter_turned(g: Grid, g1: Grid) -> bool {
    &&& grid_wf(g1)
    &&& row_min(g1) == row_min(g)
    &&& col_min(g1) == col_min(g)
    &&& piece_height(g1) == piece_width(g)
    &&& piece_width(g1) == piece_height(g)
    &&& forall|r: int, c: int|
        falling_at(g1, r, c) <==> falling_at(
            g,
            #[trigger] src_of(g, true, r, c).0,
            src_of(g, true, r, c).1,
        )
    &&& forall|r: int, c: int|
        on_board(r, c) ==> (#[trigger] placed_at(g1, r, c) <==> placed_at(g, r, c))
    &&& forall|r: int, c: int|
        on_board(r, c) ==> #[trigger] g1[r][c] == (if falling_at(
            g,
            src_of(g, true, r, c).0,
            src_of(g, true, r, c).1,
        ) {
            g[src_of(g, true, r, c).0][src_of(g, true, r, c).1]
        } else if falling_at(g, r, c) {
            BoardBlockState::Empty
        } else {
            g[r][c]
        })
}

/// One clockwise quarter turn keeps the window anchored at the same corner:
/// the turned grid satisfies the cellwise description above, and its
/// window still fits.
#[verifier::rlimit(100)]
pub proof fn lemma_rotate_cw_step(g: Grid, n: int)
    requires
        grid_wf(g),
        rotation_fits(g, n),
        rotation_unblocked(g, true),
    ensures
        quarter_turned(g, rotated(g, true)),
        rotation_fits(rotated(g, true), n),
{
    lemma_bbox(g);
    let g1 = rotated(g, true);
    let rm = row_min(g);
    let cm = col_min(g);
    let h = piece_height(g);
    let w = piece_width(g);

    assert forall|r: int, c: int|
        falling_at(g1, r, c) <==> falling_at(
            g,
            #[trigger] src_of(g, true, r, c).0,
            src_of(g, true, r, c).1,
        ) by {
        let s = src_of(g, true, r, c);
        if falling_at(g, s.0, s.1) {
            // The source lies in the bounding box, so (r, c) lies in the
            // window, which lies on the board.
            assert(rm <= s.0 <= rm + h - 1);
            assert(cm <= s.1 <= cm + w - 1);
            assert(on_board(r, c));
            assert(g1[r][c] == g[s.0][s.1]);
        } else {
            if on_board(r, c) {
                assert(!g1[r][c].spec_is_falling());
            }
        }
    }

    assert forall|r: int, c: int| on_board(r, c) implies (#[trigger] placed_at(g1, r, c)
        <==> placed_at(g, r, c)) by {
        let s = src_of(g, true, r, c);
        if falling_at(g, s.0, s.1) {
            // (r, c) is the destination of the falling cell at s, which the
            // unblocked condition keeps off placed cells.
            assert(dest_of(g, true, s.0, s.1) == (r, c));
            assert(!placed_at(g, r, c));
            assert(!g1[r][c].spec_is_placed());
        }
    }

    // Witnesses on the four edges of the turned piece's bounding box.
    let e_top = choose|r0: int| falling_at(g, r0, cm);
    assert(falling_at(g, e_top, cm));
    let d_top = dest_of(g, true, e_top, cm);
    assert(d_top.0 == rm);
    assert(src_of(g, true, d_top.0, d_top.1) == (e_top, cm));
    assert(falling_at(g1, d_top.0, d_top.1));
    assert(row_has_falling(g1, rm));

    let e_bot = choose|r0: int| falling_at(g, r0, col_max(g));
    assert(falling_at(g, e_bot, col_max(g)));
    let d_bot = dest_of(g, true, e_bot, col_max(g));
    assert(d_bot.0 == rm + w - 1);
    assert(src_of(g, true, d_bot.0, d_bot.1) == (e_bot, col_max(g)));
    assert(falling_at(g1, d_bot.0, d_bot.1));
    assert(row_has_falling(g1, rm + w - 1));

    let e_rgt = choose|c0: int| falling_at(g, rm, c0);
    assert(falling_at(g, rm, e_rgt));
    let d_rgt = dest_of(g, true, rm, e_rgt);
    assert(d_rgt.1 == cm + h - 1);
    assert(src_of(g, true, d_rgt.0, d_rgt.1) == (rm, e_rgt));
    assert(falling_at(g1, d_rgt.0, d_rgt.1));
    assert(col_has_falling(g1, cm + h - 1));

    let e_lft = choose|c0: int| falling_at(g, row_max(g), c0);
    assert(falling_at(g, row_max(g), e_lft));
    let d_lft = dest_of(g, true, row_max(g), e_lft);
    assert(d_lft.1 == cm);
    assert(src_of(g, true, d_lft.0, d_lft.1) == (row_max(g), e_lft));
    assert(falling_at(g1, d_lft.0, d_lft.1));
    assert(col_has_falling(g1, cm));

    // Every turned falling cell lies in the transposed box.
    assert forall|r: int, c: int| #[trigger] falling_at(g1, r, c) implies rm <= r <= rm + w - 1
        && cm <= c <= cm + h - 1 by {
        let s = src_of(g, true, r, c);
        assert(falling_at(g, s.0, s.1));
        assert(rm <= s.0 <= row_max(g));
        assert(cm <= s.1 <= col_max(g));
    }

    lemma_row_min_is(g1, rm);
    lemma_row_max_is(g1, rm + w - 1);
    lemma_col_min_is(g1, cm);
    lemma_col_max_is(g1, cm + h - 1);

    // The cell values, read off the definition of the turn.
    assert forall|r: int, c: int| on_board(r, c) implies #[trigger] g1[r][c] == (if falling_at(
        g,
        src_of(g, true, r, c).0,
        src_of(g, true, r, c).1,
    ) {
        g[src_of(g, true, r, c).0][src_of(g, true, r, c).1]
    } else if falling_at(g, r, c) {
        BoardBlockState::Empty
    } else {
        g[r][c]
    }) by {
        assert(g1.len() == g.len());
    }
}

/// The bounding box values, computed by one scan of the board.
fn find_bbox(board: &Board) -> (res: (bool, usize, usize, usize, usize))
    requires
        board.well_formed(),
    ensures
        res.0 == has_falling(board@),
        res.0 ==> res.1 == row_min(board@) && res.2 == row_max(board@) && res.3 == col_min(
            board@,
        ) && res.4 == col_max(board@),
{
    let mut found = false;
    let mut rmin: usize = 0;
    let mut rmax: usize = 0;
    let mut cmin: usize = 0;
    let mut cmax: usize = 0;
    for r in 0..BOARD_ROWS
        invariant
            board.well_formed(),
            !found ==> forall|rr: int, cc: int| rr < r ==> !falling_at(board@, rr, cc),
            found ==> {
                &&& rmin <= rmax < r <= BOARD_ROWS
                &&& cmin <= cmax < BOARD_COLS
                &&& row_has_falling(board@, rmin as int)
                &&& row_has_falling(board@, rmax as int)
                &&& col_has_falling(board@, cmin as int)
                &&& col_has_falling(board@, cmax as int)
                &&& forall|rr: int, cc: int|
                    rr < r && #[trigger] falling_at(board@, rr, cc) ==> rmin <= rr <= rmax
                        && cmin <= cc <= cmax
            },
    {
        for c in 0..BOARD_COLS
            invariant
                board.well_formed(),
                r < BOARD_ROWS,
                !found ==> forall|rr: int, cc: int|
                    rr < r || (rr == r && cc < c) ==> !falling_at(board@, rr, cc),
                found ==> {
                    &&& rmin <= rmax <= r < BOARD_ROWS
                    &&& cmin <= cmax < BOARD_COLS
                    &&& row_has_falling(board@, rmin as int)
                    &&& row_has_falling(board@, rmax as int)
                    &&& col_has_falling(board@, cmin as int)
                    &&& col_has_falling(board@, cmax as int)
                    &&& forall|rr: int, cc: int|
                        (rr < r || (rr == r && cc < c)) && #[trigger] falling_at(
                            board@,
                            rr,
                            cc,
                        ) ==> rmin <= rr <= rmax && cmin <= cc <= cmax
                },
        {
            if board.get(r, c).is_falling() {
                proof {
                    assert(falling_at(board@, r as int, c as int));
                }
                if !found {
                    found = true;
                    rmin = r;
                    rmax = r;
                    cmin = c;
                    cmax = c;
                } else {
                    rmax = r;
                    if c < cmin {
                        cmin = c;
                    }
                    if c > cmax {
                        cmax = c;
                    }
                }
            }
        }
    }
    proof {
        if found {
            lemma_bbox(board@);
            assert(row_min(board@) == rmin as int) by {
                lemma_first_falling_row(board@, 0);
                let wc = choose|cc: int| falling_at(board@, rmin as int, cc);
                assert(falling_at(board@, rmin as int, wc));
            }
            assert(row_max(board@) == rmax as int) by {
                lemma_last_falling_row(board@, BOARD_ROWS - 1);
                let wc = choose|cc: int| falling_at(board@, rmax as int, cc);
                assert(falling_at(board@, rmax as int, wc));
            }
            assert(col_min(board@) == cmin as int) by {
                lemma_first_falling_col(board@, 0);
                let wr = choose|rr: int| falling_at(board@, rr, cmin as int);
                assert(falling_at(board@, wr, cmin as int));
            }
            assert(col_max(board@) == cmax as int) by {
                lemma_last_falling_col(board@, BOARD_COLS - 1);
                let wr = choose|rr: int| falling_at(board@, rr, cmax as int);
                assert(falling_at(board@, wr, cmax as int));
            }
        }
    }
    (found, rmin, rmax, cmin, cmax)
}

/// Rotate the falling piece a quarter turn, clockwise or counter-clockwise,
/// if its kind rotates, its window fits on the board and no placed cell
/// blocks a destination; otherwise leave the board untouched. The O piece
/// never rotates.
pub fn rotate_block(board: &mut Board, block: Block, clockwise: bool)
    requires
        old(board).well_formed(),
    ensures
        final(board).well_formed(),
        rotation_applies(old(board)@, block, clockwise) ==> final(board)@ == rotated(
            old(board)@,
            clockwise,
        ),
        !rotation_applies(old(board)@, block, clockwise) ==> final(board)@ == old(board)@,
        final(board)@ == rotate_step(old(board)@, block, clockwise),
        block == (Block::O) ==> final(board)@ == old(board)@,
{
    let ghost g0: Grid = board@;
    if matches!(block, Block::O) {
        return ;
    }
    let (found, rmin, rmax, cmin, cmax) = find_bbox(board);
    if !found {
        return ;
    }
    proof {
        lemma_bbox(g0);
    }
    let n = block.window();
    let h = rmax - rmin + 1;
    let w = cmax - cmin + 1;
    if h > n || w > n || rmin + n > BOARD_ROWS || cmin + n > BOARD_COLS {
        return ;
    }
    // Every falling cell's destination must be free of placed cells.
    for r in 0..BOARD_ROWS
        invariant
            board.well_formed(),
            board@ == g0,
            has_falling(g0),
            rmin == row_min(g0),
            rmax == row_max(g0),
            cmin == col_min(g0),
            cmax == col_max(g0),
            rmin <= rmax < BOARD_ROWS,
            cmin <= cmax < BOARD_COLS,
            h == piece_height(g0),
            w == piece_width(g0),
            h <= n && w <= n,
            rmin + n <= BOARD_ROWS,
            cmin + n <= BOARD_COLS,
            forall|rr: int, cc: int|
                rr < r && #[trigger] falling_at(g0, rr, cc) ==> !placed_at(
                    g0,
                    dest_of(g0, clockwise, rr, cc).0,
                    dest_of(g0, clockwise, rr, cc).1,
                ),
    {
        for c in 0..BOARD_COLS
            invariant
                board.well_formed(),
                board@ == g0,
                has_falling(g0),
                r < BOARD_ROWS,
                rmin == row_min(g0),
                rmax == row_max(g0),
                cmin == col_min(g0),
                cmax == col_max(g0),
                rmin <= rmax < BOARD_ROWS,
                cmin <= cmax < BOARD_COLS,
                h == piece_height(g0),
                w == piece_width(g0),
                h <= n && w <= n,
                rmin + n <= BOARD_ROWS,
                cmin + n <= BOARD_COLS,
                forall|rr: int, cc: int|
                    rr < r && #[trigger] falling_at(g0, rr, cc) ==> !placed_at(
                        g0,
                        dest_of(g0, clockwise, rr, cc).0,
                        dest_of(g0, clockwise, rr, cc).1,
                    ),
                forall|cc: int|
                    cc < c && #[trigger] falling_at(g0, r as int, cc) ==> !placed_at(
                        g0,
                        dest_of(g0, clockwise, r as int, cc).0,
                        dest_of(g0, clockwise, r as int, cc).1,
                    ),
        {
            if board.get(r, c).is_falling() {
                proof {
                    assert(falling_at(g0, r as int, c as int));
                    lemma_bbox(g0);
                }
                let (dr, dc): (usize, usize) = if clockwise {
                    (rmin + (c - cmin), cmin + (h - 1) - (r - rmin))
                } else {
                    (rmin + (w - 1) - (c - cmin), cmin + (r - rmin))
                };
                proof {
                    assert((dr as int, dc as int) == dest_of(g0, clockwise, r as int, c as int));
                }
                if board.get(dr, dc).is_placed() {
                    proof {
                        assert(placed_at(g0, dr as int, dc as int));
                        assert(!rotation_unblocked(g0, clockwise));
                    }
                    return ;
                }
            }
        }
    }
    // The turn goes ahead: build the turned grid.
    proof {
        assert(rotation_unblocked(g0, clockwise));
        assert(rotation_applies(g0, block, clockwise));
    }
    let mut rows: Vec<Vec<BoardBlockState>> = Vec::new();
    for r in 0..BOARD_ROWS
        invariant
            board.well_formed(),
            board@ == g0,
            has_falling(g0),
            rmin == row_min(g0),
            rmax == row_max(g0),
            cmin == col_min(g0),
            cmax == col_max(g0),
            rmin <= rmax < BOARD_ROWS,
            cmin <= cmax < BOARD_COLS,
            h == piece_height(g0),
            w == piece_width(g0),
            h <= n && w <= n,
            rmin + n <= BOARD_ROWS,
            cmin + n <= BOARD_COLS,
            rows@.len() == r,
            forall|rr: int| 0 <= rr < r ==> (#[trigger] rows@[rr])@ == rotated(g0, clockwise)[rr],
    {
        let mut row: Vec<BoardBlockState> = Vec::new();
        for c in 0..BOARD_COLS
            invariant
                board.well_formed(),
                board@ == g0,
                has_falling(g0),
                r < BOARD_ROWS,
                rmin == row_min(g0),
                rmax == row_max(g0),
                cmin == col_min(g0),
                cmax == col_max(g0),
                rmin <= rmax < BOARD_ROWS,
                cmin <= cmax < BOARD_COLS,
                h == piece_height(g0),
                w == piece_width(g0),
                h <= n && w <= n,
                rmin + n <= BOARD_ROWS,
                cmin + n <= BOARD_COLS,
                row@.len() == c,
                forall|cc: int|
                    0 <= cc < c ==> row@[cc] == rotated(g0, clockwise)[r as int][cc],
        {
            proof {
                lemma_bbox(g0);
            }
            let in_box = c >= cmin && c < cmin + h && r >= rmin && r < rmin + w;
            let v: BoardBlockState = if in_box {
                let (sr, sc): (usize, usize) = if clockwise {
                    (rmin + (h - 1) - (c - cmin), cmin + (r - rmin))
                } else {
                    (rmin + (c - cmin), cmin + (w - 1) - (r - rmin))
                };
                proof {
                    assert((sr as int, sc as int) == src_of(g0, clockwise, r as int, c as int));
                }
                if board.get(sr, sc).is_falling() {
                    board.get(sr, sc)
                } else if board.get(r, c).is_falling() {
                    BoardBlockState::Empty
                } else {
                    board.get(r, c)
                }
            } else {
                proof {
                    let s = src_of(g0, clockwise, r as int, c as int);
                    assert(!falling_at(g0, s.0, s.1));
                }
                if board.get(r, c).is_falling() {
                    BoardBlockState::Empty
                } else {
                    board.get(r, c)
                }
            };
            assert(v == rotated(g0, clockwise)[r as int][c as int]);
            row.push(v);
        }
        proof {
            assert(row@ =~= rotated(g0, clockwise)[r as int]);
        }
        rows.push(row);
    }
    board.replace_grid(rows);
    proof {
        assert(board@ =~~= rotated(g0, clockwise));
    }
}

/// The cell diametrically opposite `(r, c)` in the falling piece's
/// bounding box: where a cell ends up after two quarter turns.
pub open spec fn reflect180(g: Grid, r: int, c: int) -> (int, int) {
    (2 * row_min(g) + piece_height(g) - 1 - r, 2 * col_min(g) + piece_width(g) - 1 - c)
}

/// No placed cell stands at the mirror position of a falling cell, when
/// both quarter turns are unblocked.
#[verifier::rlimit(100)]
proof fn lemma_mirror_unblocked(g: Grid, g1: Grid, n: int)
    requires
        grid_wf(g),
        rotation_fits(g, n),
        quarter_turned(g, g1),
        rotation_unblocked(g1, true),
    ensures
        forall|r: int, c: int|
            #[trigger] falling_at(g, r, c) ==> !placed_at(
                g,
                reflect180(g, r, c).0,
                reflect180(g, r, c).1,
            ),
{
    lemma_bbox(g);
    assert forall|r: int, c: int| #[trigger] falling_at(g, r, c) implies !placed_at(
        g,
        reflect180(g, r, c).0,
        reflect180(g, r, c).1,
    ) by {
        let d1 = dest_of(g, true, r, c);
        assert(src_of(g, true, d1.0, d1.1) == (r, c));
        assert(falling_at(g1, d1.0, d1.1));
        let d2 = dest_of(g1, true, d1.0, d1.1);
        assert(d2 == reflect180(g, r, c));
        assert(!placed_at(g1, d2.0, d2.1));
        assert(on_board(d2.0, d2.1));
    }
}

/// After two quarter turns, a cell whose mirror position was falling
/// carries that mirrored cell.
#[verifier::rlimit(100)]
proof fn lemma_two_step_image_cells(g: Grid, g1: Grid, g2: Grid, n: int)
    requires
        grid_wf(g),
        rotation_fits(g, n),
        quarter_turned(g, g1),
        quarter_turned(g1, g2),
    ensures
        forall|r: int, c: int|
            on_board(r, c) && falling_at(
                g,
                #[trigger] reflect180(g, r, c).0,
                reflect180(g, r, c).1,
            ) ==> g2[r][c] == g[reflect180(g, r, c).0][reflect180(g, r, c).1],
{
    lemma_bbox(g);
    assert forall|r: int, c: int|
        on_board(r, c) && falling_at(
            g,
            #[trigger] reflect180(g, r, c).0,
            reflect180(g, r, c).1,
        ) implies g2[r][c] == g[reflect180(g, r, c).0][reflect180(g, r, c).1] by {
        let q = src_of(g1, true, r, c);
        let p = src_of(g, true, q.0, q.1);
        assert(p == reflect180(g, r, c));
        assert(falling_at(g1, q.0, q.1));
        assert(on_board(q.0, q.1));
        assert(g2[r][c] == g1[q.0][q.1]);
        assert(g1[q.0][q.1] == g[p.0][p.1]);
    }
}

/// After two quarter turns, a cell whose mirror position was not falling
/// empties out if it was falling itself, and otherwise keeps its value.
#[verifier::rlimit(100)]
proof fn lemma_two_step_other_cells(g: Grid, g1: Grid, g2: Grid, n: int)
    requires
        grid_wf(g),
        rotation_fits(g, n),
        rotation_unblocked(g, true),
        quarter_turned(g, g1),
        quarter_turned(g1, g2),
    ensures
        forall|r: int, c: int|
            on_board(r, c) && !falling_at(
                g,
                #[trigger] reflect180(g, r, c).0,
                reflect180(g, r, c).1,
            ) ==> g2[r][c] == (if falling_at(g, r, c) {
                BoardBlockState::Empty
            } else {
                g[r][c]
            }),
{
    lemma_bbox(g);
    assert forall|r: int, c: int|
        on_board(r, c) && !falling_at(
            g,
            #[trigger] reflect180(g, r, c).0,
            reflect180(g, r, c).1,
        ) implies g2[r][c] == (if falling_at(g, r, c) {
        BoardBlockState::Empty
    } else {
        g[r][c]
    }) by {
        let q = src_of(g1, true, r, c);
        let p = src_of(g, true, q.0, q.1);
        assert(p == reflect180(g, r, c));
        assert(!falling_at(g1, q.0, q.1));
        if falling_at(g1, r, c) {
            assert(g2[r][c] == (BoardBlockState::Empty));
            let t = src_of(g, true, r, c);
            assert(dest_of(g, true, t.0, t.1) == (r, c));
            assert(falling_at(g, t.0, t.1));
            assert(!placed_at(g, r, c));
            if falling_at(g, r, c) {
            } else {
                assert(g[r][c] == (BoardBlockState::Empty));
            }
        } else {
            assert(g2[r][c] == g1[r][c]);
            let t = src_of(g, true, r, c);
            assert(!falling_at(g, t.0, t.1));
            if falling_at(g, r, c) {
                assert(g1[r][c] == (BoardBlockState::Empty));
            } else {
                assert(g1[r][c] == g[r][c]);
            }
        }
    }
}

/// Two clockwise quarter turns turn the piece half way round: every cell
/// moves to its mirror position in the bounding box, which itself stays
/// put, and placed cells are untouched.
#[verifier::rlimit(100)]
pub proof fn lemma_rotate_cw_twice(g: Grid, n: int)
    requires
        grid_wf(g),
        rotation_fits(g, n),
        rotation_unblocked(g, true),
        rotation_unblocked(rotated(g, true), true),
    ensures
        grid_wf(rotated(rotated(g, true), true)),
        row_min(rotated(rotated(g, true), true)) == row_min(g),
        col_min(rotated(rotated(g, true), true)) == col_min(g),
        piece_height(rotated(rotated(g, true), true)) == piece_height(g),
        piece_width(rotated(rotated(g, true), true)) == piece_width(g),
        rotation_fits(rotated(rotated(g, true), true), n),
        forall|r: int, c: int|
            on_board(r, c) ==> rotated(rotated(g, true), true)[r][c] == (if falling_at(
                g,
                #[trigger] reflect180(g, r, c).0,
                reflect180(g, r, c).1,
            ) {
                g[reflect180(g, r, c).0][reflect180(g, r, c).1]
            } else if falling_at(g, r, c) {
                BoardBlockState::Empty
            } else {
                g[r][c]
            }),
        forall|r: int, c: int|
            falling_at(rotated(rotated(g, true), true), r, c) <==> falling_at(
                g,
                #[trigger] reflect180(g, r, c).0,
                reflect180(g, r, c).1,
            ),
        forall|r: int, c: int|
            on_board(r, c) ==> (placed_at(rotated(rotated(g, true), true), r, c) <==> placed_at(
                g,
                r,
                c,
            )),
        forall|r: int, c: int|
            #[trigger] falling_at(g, r, c) ==> !placed_at(
                g,
                reflect180(g, r, c).0,
                reflect180(g, r, c).1,
            ),
{
    let g1 = rotated(g, true);
    let g2 = rotated(g1, true);
    lemma_bbox(g);
    lemma_rotate_cw_step(g, n);
    lemma_rotate_cw_step(g1, n);
    lemma_mirror_unblocked(g, g1, n);
    lemma_two_step_image_cells(g, g1, g2, n);
    lemma_two_step_other_cells(g, g1, g2, n);
    let rm = row_min(g);
    let cm = col_min(g);

    // Falling cells after the half turn are exactly the mirrored ones.
    assert forall|r: int, c: int|
        falling_at(g2, r, c) <==> falling_at(
            g,
            #[trigger] reflect180(g, r, c).0,
            reflect180(g, r, c).1,
        ) by {
        let p = reflect180(g, r, c);
        if falling_at(g, p.0, p.1) {
            assert(rm <= p.0 <= row_max(g) && cm <= p.1 <= col_max(g));
            assert(on_board(r, c));
            assert(g2[r][c] == g[p.0][p.1]);
        } else {
            if on_board(r, c) {
                assert(!g2[r][c].spec_is_falling());
            }
        }
    }
}

/// When the first turn fits, each of four successive rotation calls
/// performs its quarter turn (given the unblocked provisos), and each
/// intermediate grid still fits its window.
pub proof fn lemma_rotate_chain(g: Grid, block: Block)
    requires
        grid_wf(g),
        block != (Block::O),
        rotation_fits(g, block.spec_window() as int),
        rotation_unblocked(g, true),
        rotation_unblocked(rotate_step(g, block, true), true),
        rotation_unblocked(rotate_step(rotate_step(g, block, true), block, true), true),
        rotation_unblocked(
            rotate_step(rotate_step(rotate_step(g, block, true), block, true), block, true),
            true,
        ),
    ensures
        rotate_step(g, block, true) == rotated(g, true),
        rotate_step(rotate_step(g, block, true), block, true) == rotated(rotated(g, true), true),
        rotate_step(rotate_step(rotate_step(g, block, true), block, true), block, true)
            == rotated(rotated(rotated(g, true), true), true),
        rotate_step(
            rotate_step(rotate_step(rotate_step(g, block, true), block, true), block, true),
            block,
            true,
        ) == rotated(rotated(rotated(rotated(g, true), true), true), true),
{
    let n = block.spec_window() as int;
    let g1 = rotated(g, true);
    lemma_rotate_cw_step(g, n);
    assert(rotate_step(g, block, true) == g1);
    let g2 = rotated(g1, true);
    lemma_rotate_cw_step(g1, n);
    assert(rotate_step(g1, block, true) == g2);
    let g3 = rotated(g2, true);
    lemma_rotate_cw_step(g2, n);
    assert(rotate_step(g2, block, true) == g3);
    lemma_rotate_cw_step(g3, n);
    assert(rotate_step(g3, block, true) == rotated(g3, true));
}

/// A grid half-turned twice, about the same box, is the original grid:
/// stated over the cellwise description of a half turn.
#[verifier::rlimit(100)]
proof fn lemma_half_turn_involution(g: Grid, g2: Grid, g4: Grid)
    requires
        grid_wf(g),
        grid_wf(g2),
        grid_wf(g4),
        row_min(g2) == row_min(g),
        col_min(g2) == col_min(g),
        piece_height(g2) == piece_height(g),
        piece_width(g2) == piece_width(g),
        0 <= row_min(g) && row_min(g) + piece_height(g) <= BOARD_ROWS,
        0 <= col_min(g) && col_min(g) + piece_width(g) <= BOARD_COLS,
        forall|r: int, c: int|
            #[trigger] falling_at(g, r, c) ==> row_min(g) <= r < row_min(g) + piece_height(g)
                && col_min(g) <= c < col_min(g) + piece_width(g),
        forall|r: int, c: int|
            on_board(r, c) ==> g2[r][c] == (if falling_at(
                g,
                #[trigger] reflect180(g, r, c).0,
                reflect180(g, r, c).1,
            ) {
                g[reflect180(g, r, c).0][reflect180(g, r, c).1]
            } else if falling_at(g, r, c) {
                BoardBlockState::Empty
            } else {
                g[r][c]
            }),
        forall|r: int, c: int|
            falling_at(g2, r, c) <==> falling_at(
                g,
                #[trigger] reflect180(g, r, c).0,
                reflect180(g, r, c).1,
            ),
        forall|r: int, c: int|
            #[trigger] falling_at(g, r, c) ==> !placed_at(
                g,
                reflect180(g, r, c).0,
                reflect180(g, r, c).1,
            ),
        forall|r: int, c: int|
            on_board(r, c) ==> g4[r][c] == (if falling_at(
                g2,
                #[trigger] reflect180(g2, r, c).0,
                reflect180(g2, r, c).1,
            ) {
                g2[reflect180(g2, r, c).0][reflect180(g2, r, c).1]
            } else if falling_at(g2, r, c) {
                BoardBlockState::Empty
            } else {
                g2[r][c]
            }),
    ensures
        g4 == g,
{
    assert forall|r: int, c: int| on_board(r, c) implies g4[r][c] == g[r][c] by {
        let p = reflect180(g, r, c);
        assert(reflect180(g2, r, c) == p);
        assert(reflect180(g2, p.0, p.1) == (r, c));
        assert(reflect180(g, p.0, p.1) == (r, c));
        if falling_at(g, r, c) {
            assert(falling_at(g2, p.0, p.1));
            assert(on_board(p.0, p.1));
            assert(g4[r][c] == g2[p.0][p.1]);
            assert(g2[p.0][p.1] == g[r][c]);
        } else {
            assert(!falling_at(g2, p.0, p.1));
            if falling_at(g, p.0, p.1) {
                assert(falling_at(g2, r, c));
                assert(g4[r][c] == (BoardBlockState::Empty));
                assert(!placed_at(g, r, c));
                assert(g[r][c] == (BoardBlockState::Empty));
            } else {
                assert(!falling_at(g2, r, c));
                assert(g4[r][c] == g2[r][c]);
                assert(g2[r][c] == g[r][c]);
            }
        }
    }
    assert forall|r: int| 0 <= r < BOARD_ROWS implies g4[r] =~= g[r] by {
        assert(g4[r].len() == BOARD_COLS);
        assert(g[r].len() == BOARD_COLS);
        assert forall|c: int| 0 <= c < BOARD_COLS implies g4[r][c] == g[r][c] by {
            assert(on_board(r, c));
        }
    }
    assert(g4 =~= g);
}

/// Four clockwise quarter turns, each unblocked, give back the original
/// grid.
#[verifier::rlimit(100)]
proof fn lemma_rotated_four_is_identity(g: Grid, n: int)
    requires
        grid_wf(g),
        rotation_fits(g, n),
        rotation_unblocked(g, true),
        rotation_unblocked(rotated(g, true), true),
        rotation_unblocked(rotated(rotated(g, true), true), true),
        rotation_unblocked(rotated(rotated(rotated(g, true), true), true), true),
    ensures
        rotated(rotated(rotated(rotated(g, true), true), true), true) == g,
{
    let g2 = rotated(rotated(g, true), true);
    let g4 = rotated(rotated(g2, true), true);
    lemma_rotate_cw_twice(g, n);
    lemma_rotate_cw_twice(g2, n);
    lemma_bbox(g);
    lemma_half_turn_involution(g, g2, g4);
}

/// Four clockwise quarter turns restore the grid exactly, for a piece kind
/// other than O, provided no placed cell blocks any intermediate turn.
#[verifier::rlimit(100)]
pub proof fn lemma_rotate_cw_four_restores(g: Grid, block: Block)
    requires
        grid_wf(g),
        block != (Block::O),
        rotation_unblocked(g, true),
        rotation_unblocked(rotate_step(g, block, true), true),
        rotation_unblocked(rotate_step(rotate_step(g, block, true), block, true), true),
        rotation_unblocked(
            rotate_step(rotate_step(rotate_step(g, block, true), block, true), block, true),
            true,
        ),
    ensures
        rotate_step(
            rotate_step(rotate_step(rotate_step(g, block, true), block, true), block, true),
            block,
            true,
        ) == g,
{
    let n = block.spec_window() as int;
    if !rotation_fits(g, n) {
        // No turn applies, so every step leaves the grid alone.
        assert(rotate_step(g, block, true) == g);
    } else {
        lemma_rotate_chain(g, block);
        lemma_rotated_four_is_identity(g, n);
    }
}

} // verus!
