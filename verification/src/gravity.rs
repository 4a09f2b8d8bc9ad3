//! Level-timed descent and locking.
//!
//! Each frame the gravity timer accumulates the frame's wall-clock delta.
//! Once it reaches the level's step duration -- or the faster soft-drop
//! duration while the drop key is held at a low enough level -- the piece
//! attempts one step down. If any falling cell sits on the floor or on a
//! placed cell, the whole piece locks instead: every falling cell becomes
//! placed at once.

use vstd::prelude::*;

use crate::board::{has_falling, Board, BoardBlockState, Grid, BOARD_COLS, BOARD_ROWS};
use crate::movement::{can_shift, shifted, try_shift, ShiftDir};
use crate::progression::Level;

verus! {

/// The gravity timer: milliseconds accumulated since the last descent step.
#[derive(Debug, Clone, Copy, PartialEq, Eq, Structural, Default)]
pub struct SpeedTimer {
    pub watch: u64,
}

/// A falling cell locked in place; any other cell unchanged.
pub open spec fn lock_cell(v: BoardBlockState) -> BoardBlockState {
    match v {
        BoardBlockState::Falling { block_type } => BoardBlockState::Placed { block_type },
        _ => v,
    }
}

/// The grid with the whole falling piece converted to placed cells.
pub open spec fn locked(g: Grid) -> Grid {
    Seq::new(g.len(), |r: int| Seq::new(g[r].len(), |c: int| lock_cell(g[r][c])))
}

/// A locked grid has no falling cells left at all.
pub proof fn lemma_locked_no_falling(g: Grid)
    requires
        crate::board::grid_wf(g),
    ensures
        !has_falling(locked(g)),
{
    let g1 = locked(g);
    assert forall|r: int, c: int| !(#[trigger] crate::board::falling_at(g1, r, c)) by {
        if crate::board::on_board(r, c) {
            assert(g1[r][c] == lock_cell(g[r][c]));
        }
    }
}

/// Convert every falling cell to a placed cell of the same kind.
pub fn lock_falling(board: &mut Board)
    requires
        old(board).well_formed(),
    ensures
        final(board).well_formed(),
        final(board)@ == locked(old(board)@),
{
    let ghost g0: Grid = board@;
    let mut rows: Vec<Vec<BoardBlockState>> = Vec::new();
    for r in 0..BOARD_ROWS
        invariant
            board.well_formed(),
            board@ == g0,
            rows@.len() == r,
            forall|rr: int| 0 <= rr < r ==> (#[trigger] rows@[rr])@ == locked(g0)[rr],
    {
        let mut row: Vec<BoardBlockState> = Vec::new();
        for c in 0..BOARD_COLS
            invariant
                board.well_formed(),
                board@ == g0,
                r < BOARD_ROWS,
                row@.len() == c,
                forall|cc: int| 0 <= cc < c ==> row@[cc] == locked(g0)[r as int][cc],
        {
            let v = match board.get(r, c) {
                BoardBlockState::Falling { block_type } => BoardBlockState::Placed { block_type },
                other => other,
            };
            row.push(v);
        }
        proof {
            assert(row@ =~= locked(g0)[r as int]);
        }
        rows.push(row);
    }
    board.replace_grid(rows);
    proof {
        assert(board@ =~~= locked(g0));
    }
}

/// Whether the gravity timer, at the given accumulated value, fires a
/// descent attempt this frame: the level's duration elapsed, or the
/// soft-drop duration elapsed while soft drop is held and the level is
/// at most 19.
pub open spec fn gravity_fires(watch: u64, level: Level, soft_drop: bool) -> bool {
    ||| watch >= level.spec_duration_ms()
    ||| (soft_drop && level.0 <= 19 && watch >= Level(19).spec_duration_ms())
}

/// Advance gravity by one frame.
///
/// Does nothing when no piece is falling. Otherwise the timer accumulates
/// the frame delta (saturating); when it fires it resets and the piece
/// either moves one row down -- if every falling cell's neighbour below is
/// free -- or locks in place entirely. Reports whether the piece locked.
pub fn block_gravity(
    board: &mut Board,
    level: &Level,
    soft_drop: bool,
    delta_ms: u64,
    timer: &mut SpeedTimer,
) -> (locked_now: bool)
    requires
        old(board).well_formed(),
    ensures
        final(board).well_formed(),
        !has_falling(old(board)@) ==> final(board)@ == old(board)@ && *final(timer) == *old(timer)
            && !locked_now,
        has_falling(old(board)@) ==> {
            let watch = old(timer).watch.saturating_add(delta_ms);
            if gravity_fires(watch, *level, soft_drop) {
                &&& final(timer).watch == 0
                &&& if can_shift(old(board)@, ShiftDir::Down) {
                    final(board)@ == shifted(old(board)@, ShiftDir::Down) && !locked_now
                } else {
                    final(board)@ == locked(old(board)@) && locked_now
                }
            } else {
                &&& final(timer).watch == watch
                &&& final(board)@ == old(board)@
                &&& !locked_now
            }
        },
{
    if !has_falling_piece(board) {
        return false;
    }
    timer.watch = timer.watch.saturating_add(delta_ms);
    let fires = timer.watch >= level.get_duraiton() || (soft_drop && level.0 <= 19 && timer.watch
        >= Level(19).get_duraiton());
    if !fires {
        return false;
    }
    timer.watch = 0;
    if try_shift(board, ShiftDir::Down) {
        false
    } else {
        lock_falling(board);
        true
    }
}

/// Whether any cell of the board is falling: whether an active piece exists.
pub fn has_falling_piece(board: &Board) -> (r: bool)
    requires
        board.well_formed(),
    ensures
        r == has_falling(board@),
{
    for r in 0..BOARD_ROWS
        invariant
            board.well_formed(),
            forall|rr: int, cc: int|
                rr < r && crate::board::falling_at(board@, rr, cc) ==> false,
    {
        for c in 0..BOARD_COLS
            invariant
                board.well_formed(),
                r < BOARD_ROWS,
                forall|rr: int, cc: int|
                    rr < r && crate::board::falling_at(board@, rr, cc) ==> false,
                forall|cc: int|
                    cc < c && crate::board::falling_at(board@, r as int, cc) ==> false,
        {
            if board.get(r, c).is_falling() {
                assert(crate::board::falling_at(board@, r as int, c as int));
                return true;
            }
        }
    }
    false
}

/// One elapsed gravity step, seen on the board alone: the piece descends
/// one row when it can, locks when it cannot, and nothing happens when no
/// piece is falling.
pub open spec fn drop_step(g: Grid) -> Grid {
    if !has_falling(g) {
        g
    } else if can_shift(g, ShiftDir::Down) {
        shifted(g, ShiftDir::Down)
    } else {
        locked(g)
    }
}

/// `n` elapsed gravity steps in a row.
pub open spec fn drop_n(g: Grid, n: int) -> Grid
    decreases n,
{
    if n <= 0 {
        g
    } else {
        drop_n(drop_step(g), n - 1)
    }
}

/// A board without a falling piece is a fixed point of the gravity step.
pub proof fn lemma_drop_n_fixed(g: Grid, n: int)
    requires
        !has_falling(g),
    ensures
        drop_n(g, n) == g,
    decreases n,
{
    if n > 0 {
        lemma_drop_n_fixed(g, n - 1);
    }
}

/// A legal descent moves the piece's topmost row down by exactly one.
pub proof fn lemma_shifted_down_row_min(g: Grid)
    requires
        crate::board::grid_wf(g),
        has_falling(g),
        can_shift(g, ShiftDir::Down),
    ensures
        has_falling(shifted(g, ShiftDir::Down)),
        crate::rotation::row_min(shifted(g, ShiftDir::Down)) == crate::rotation::row_min(g) + 1,
{
    let g1 = shifted(g, ShiftDir::Down);
    crate::rotation::lemma_bbox(g);
    let rm = crate::rotation::row_min(g);
    assert forall|r: int, c: int|
        crate::board::falling_at(g1, r, c) <==> crate::board::falling_at(g, r - 1, c) by {
        if crate::board::falling_at(g, r - 1, c) {
            assert(crate::board::on_board(r, c));
            assert(g1[r][c] == g[r - 1][c]);
        } else {
            if crate::board::on_board(r, c) {
                assert(!g1[r][c].spec_is_falling());
            }
        }
    }
    let wc = choose|c: int| crate::board::falling_at(g, rm, c);
    assert(crate::board::falling_at(g, rm, wc));
    assert(crate::board::falling_at(g1, rm + 1, wc));
    assert(crate::rotation::row_has_falling(g1, rm + 1));
    assert forall|r: int, c: int| #[trigger] crate::board::falling_at(g1, r, c) implies r >= rm
        + 1 by {
        assert(crate::board::falling_at(g, r - 1, c));
    }
    crate::rotation::lemma_row_min_is(g1, rm + 1);
}

/// Each elapsed gravity step pushes a still-falling piece's topmost row
/// down by one, and keeps the board well formed.
pub proof fn lemma_drop_n_descends(g: Grid, n: int)
    requires
        crate::board::grid_wf(g),
        n >= 0,
    ensures
        crate::board::grid_wf(drop_n(g, n)),
        has_falling(drop_n(g, n)) ==> crate::rotation::row_min(drop_n(g, n))
            >= crate::rotation::row_min(g) + n,
    decreases n,
{
    if n > 0 {
        let g1 = drop_step(g);
        if !has_falling(g) {
            lemma_drop_n_fixed(g, n);
        } else if can_shift(g, ShiftDir::Down) {
            lemma_shifted_down_row_min(g);
            assert(crate::board::grid_wf(g1));
            lemma_drop_n_descends(g1, n - 1);
            assert(drop_n(g, n) == drop_n(g1, n - 1));
        } else {
            lemma_locked_no_falling(g);
            assert(crate::board::grid_wf(g1));
            lemma_drop_n_fixed(g1, n - 1);
            assert(drop_n(g, n) == g1);
        }
    }
}

/// Dropping always ends in a lock: within the board's height of elapsed
/// gravity steps the piece can no longer descend and converts entirely to
/// placed cells -- nothing is left falling, however the board began.
pub proof fn lemma_drop_until_lock(g: Grid)
    requires
        crate::board::grid_wf(g),
    ensures
        !has_falling(drop_n(g, BOARD_ROWS as int)),
{
    lemma_drop_n_descends(g, BOARD_ROWS as int);
    if has_falling(drop_n(g, BOARD_ROWS as int)) {
        crate::rotation::lemma_first_falling_row(g, 0);
        crate::rotation::lemma_bbox(drop_n(g, BOARD_ROWS as int));
    }
}

} // verus!
