//! All-or-nothing translation of the falling piece.
//!
//! A shift moves every falling cell one step in the chosen direction. It is
//! legal only when every falling cell's destination lies on the board and is
//! not occupied by a placed cell; otherwise nothing moves at all.

use vstd::prelude::*;

use crate::board::{falling_at, on_board, Board, BoardBlockState, Grid, BOARD_COLS, BOARD_ROWS};

verus! {

/// A direction the falling piece can be shifted in.
#[derive(Debug, Clone, Copy, PartialEq, Eq, Structural)]
pub enum ShiftDir {
    Left,
    Right,
    Down,
}

/// Row offset of one step in the given direction.
pub open spec fn row_step(d: ShiftDir) -> int {
    match d {
        ShiftDir::Left => 0,
        ShiftDir::Right => 0,
        ShiftDir::Down => 1,
    }
}

/// Column offset of one step in the given direction.
pub open spec fn col_step(d: ShiftDir) -> int {
    match d {
        ShiftDir::Left => -1,
        ShiftDir::Right => 1,
        ShiftDir::Down => 0,
    }
}

/// Whether the falling piece may move one step in the given direction:
/// every falling cell's destination is on the board and not placed.
pub open spec fn can_shift(g: Grid, d: ShiftDir) -> bool {
    forall|r: int, c: int|
        falling_at(g, r, c) ==> on_board(r + row_step(d), c + col_step(d)) && !g[r + row_step(
            d,
        )][c + col_step(d)].spec_is_placed()
}

/// The grid after the falling piece moved one step in the given direction:
/// each destination takes its source's cell, vacated sources become empty,
/// and every other cell keeps its value.
pub open spec fn shifted(g: Grid, d: ShiftDir) -> Grid {
    Seq::new(
        g.len(),
        |r: int|
            Seq::new(
                g[r].len(),
                |c: int|
                    if falling_at(g, r - row_step(d), c - col_step(d)) {
                        g[r - row_step(d)][c - col_step(d)]
                    } else if falling_at(g, r, c) {
                        BoardBlockState::Empty
                    } else {
                        g[r][c]
                    },
            ),
    )
}

/// Whether the falling piece may move, decided by scanning every cell.
pub fn check_can_shift(board: &Board, d: ShiftDir) -> (ok: bool)
    requires
        board.well_formed(),
    ensures
        ok == can_shift(board@, d),
{
    for r in 0..BOARD_ROWS
        invariant
            board.well_formed(),
            forall|rr: int, cc: int|
                rr < r && falling_at(board@, rr, cc) ==> on_board(
                    rr + row_step(d),
                    cc + col_step(d),
                ) && !board@[rr + row_step(d)][cc + col_step(d)].spec_is_placed(),
    {
        for c in 0..BOARD_COLS
            invariant
                board.well_formed(),
                r < BOARD_ROWS,
                forall|rr: int, cc: int|
                    rr < r && falling_at(board@, rr, cc) ==> on_board(
                        rr + row_step(d),
                        cc + col_step(d),
                    ) && !board@[rr + row_step(d)][cc + col_step(d)].spec_is_placed(),
                forall|cc: int|
                    cc < c && falling_at(board@, r as int, cc) ==> on_board(
                        r + row_step(d),
                        cc + col_step(d),
                    ) && !board@[r + row_step(d)][cc + col_step(d)].spec_is_placed(),
        {
            if board.get(r, c).is_falling() {
                let (ok, tr, tc): (bool, usize, usize) = match d {
                    ShiftDir::Left => {
                        if c >= 1 {
                            (true, r, c - 1)
                        } else {
                            (false, 0, 0)
                        }
                    },
                    ShiftDir::Right => {
                        if c + 1 < BOARD_COLS {
                            (true, r, c + 1)
                        } else {
                            (false, 0, 0)
                        }
                    },
                    ShiftDir::Down => {
                        if r + 1 < BOARD_ROWS {
                            (true, r + 1, c)
                        } else {
                            (false, 0, 0)
                        }
                    },
                };
                if !ok {
                    assert(falling_at(board@, r as int, c as int));
                    return false;
                }
                if board.get(tr, tc).is_placed() {
                    assert(falling_at(board@, r as int, c as int));
                    return false;
                }
            }
        }
    }
    true
}

/// Move the falling piece one step in the given direction if that is legal;
/// otherwise leave the board untouched. Reports whether it moved.
pub fn try_shift(board: &mut Board, d: ShiftDir) -> (moved: bool)
    requires
        old(board).well_formed(),
    ensures
        final(board).well_formed(),
        moved == can_shift(old(board)@, d),
        moved ==> final(board)@ == shifted(old(board)@, d),
        !moved ==> final(board)@ == old(board)@,
{
    let ghost g0: Grid = board@;
    if !check_can_shift(board, d) {
        return false;
    }
    let mut rows: Vec<Vec<BoardBlockState>> = Vec::new();
    for r in 0..BOARD_ROWS
        invariant
            board.well_formed(),
            board@ == g0,
            rows@.len() == r,
            forall|rr: int| 0 <= rr < r ==> (#[trigger] rows@[rr])@ == shifted(g0, d)[rr],
    {
        let mut row: Vec<BoardBlockState> = Vec::new();
        for c in 0..BOARD_COLS
            invariant
                board.well_formed(),
                board@ == g0,
                r < BOARD_ROWS,
                row@.len() == c,
                forall|cc: int| 0 <= cc < c ==> row@[cc] == shifted(g0, d)[r as int][cc],
        {
            let (has_src, sr, sc): (bool, usize, usize) = match d {
                ShiftDir::Left => {
                    if c + 1 < BOARD_COLS {
                        (true, r, c + 1)
                    } else {
                        (false, 0, 0)
                    }
                },
                ShiftDir::Right => {
                    if c >= 1 {
                        (true, r, c - 1)
                    } else {
                        (false, 0, 0)
                    }
                },
                ShiftDir::Down => {
                    if r >= 1 {
                        (true, r - 1, c)
                    } else {
                        (false, 0, 0)
                    }
                },
            };
            let v: BoardBlockState = if has_src && board.get(sr, sc).is_falling() {
                board.get(sr, sc)
            } else if board.get(r, c).is_falling() {
                BoardBlockState::Empty
            } else {
                board.get(r, c)
            };
            assert(v == shifted(g0, d)[r as int][c as int]);
            row.push(v);
        }
        proof {
            assert(row@ =~= shifted(g0, d)[r as int]);
        }
        rows.push(row);
    }
    board.replace_grid(rows);
    proof {
        assert(board@ =~~= shifted(g0, d));
    }
    true
}

/// Milliseconds a direction must be held before auto-repeat starts.
pub const DAS_DELAY_MS: u64 = 150;

/// Milliseconds between auto-repeated shifts once auto-repeat runs.
pub const DAS_REPEAT_MS: u64 = 50;

/// The delayed-auto-shift timers: time since the direction was held, and
/// time since the last auto-repeated shift.
#[derive(Debug, Clone, Copy, PartialEq, Eq, Structural, Default)]
pub struct DasTimer {
    pub das: u64,
    pub speed: u64,
}

/// The discrete input signals of one frame.
#[derive(Debug, Clone, Copy, PartialEq, Eq, Structural, Default)]
pub struct InputState {
    pub left_pressed: bool,
    pub left_just_pressed: bool,
    pub left_just_released: bool,
    pub right_pressed: bool,
    pub right_just_pressed: bool,
    pub right_just_released: bool,
    pub rotate_cw_just_pressed: bool,
    pub rotate_ccw_just_pressed: bool,
    pub soft_drop_pressed: bool,
}

/// One frame of the delayed-auto-shift state machine for a held direction:
/// the new timers, and how many shifts fire this frame (a just-pressed
/// shift, an auto-repeat shift, or both). The repeat timer starts counting
/// at the moment the hold delay is crossed: in the crossing frame it is
/// credited only the time past the delay mark, and the whole frame delta
/// from then on.
pub open spec fn das_tick(t: DasTimer, delta: u64, just_pressed: bool, just_released: bool) -> (
    DasTimer,
    int,
) {
    let das1 = t.das.saturating_add(delta);
    let n1: int = if just_pressed {
        1
    } else {
        0
    };
    if das1 >= DAS_DELAY_MS {
        let credit = if t.das >= DAS_DELAY_MS {
            delta
        } else {
            (das1 - DAS_DELAY_MS) as u64
        };
        let speed1 = t.speed.saturating_add(credit);
        let das2 = if just_released {
            0u64
        } else {
            das1
        };
        if speed1 >= DAS_REPEAT_MS {
            (DasTimer { das: das2, speed: 0 }, n1 + 1)
        } else {
            (DasTimer { das: das2, speed: speed1 }, n1)
        }
    } else {
        (DasTimer { das: das1, speed: t.speed }, n1)
    }
}

/// Advance the delayed-auto-shift timers by one frame for a held
/// direction. Returns how many shifts fire this frame.
pub fn das_step(timer: &mut DasTimer, delta: u64, just_pressed: bool, just_released: bool) -> (n:
    u8)
    ensures
        *final(timer) == das_tick(*old(timer), delta, just_pressed, just_released).0,
        n as int == das_tick(*old(timer), delta, just_pressed, just_released).1,
        n <= 2,
{
    let mut n: u8 = 0;
    let held_before = timer.das >= DAS_DELAY_MS;
    timer.das = timer.das.saturating_add(delta);
    if just_pressed {
        n = n + 1;
    }
    if timer.das >= DAS_DELAY_MS {
        let credit = if held_before {
            delta
        } else {
            timer.das - DAS_DELAY_MS
        };
        timer.speed = timer.speed.saturating_add(credit);
        if just_released {
            timer.das = 0;
        }
        if timer.speed >= DAS_REPEAT_MS {
            timer.speed = 0;
            n = n + 1;
        }
    }
    n
}

/// One attempted shift: the shifted grid when the move is legal, the same
/// grid otherwise.
pub open spec fn shift_step(g: Grid, d: ShiftDir) -> Grid {
    if can_shift(g, d) {
        shifted(g, d)
    } else {
        g
    }
}

/// `n` attempted shifts in a row.
pub open spec fn shift_n(g: Grid, d: ShiftDir, n: int) -> Grid
    decreases n,
{
    if n <= 0 {
        g
    } else {
        shift_n(shift_step(g, d), d, n - 1)
    }
}

/// `shift_n` unrolled for the frame's possible shift counts.
proof fn lemma_shift_n_unroll(g: Grid, d: ShiftDir, n: int)
    requires
        0 <= n <= 2,
    ensures
        n == 0 ==> shift_n(g, d, n) == g,
        n == 1 ==> shift_n(g, d, n) == shift_step(g, d),
        n == 2 ==> shift_n(g, d, n) == shift_step(shift_step(g, d), d),
{
    if n == 1 {
        assert(shift_n(shift_step(g, d), d, 0) == shift_step(g, d));
    }
    if n == 2 {
        assert(shift_n(g, d, 2) == shift_n(shift_step(g, d), d, 1));
        assert(shift_n(shift_step(g, d), d, 1) == shift_n(shift_step(shift_step(g, d), d), d, 0));
        assert(shift_n(shift_step(shift_step(g, d), d), d, 0) == shift_step(shift_step(g, d), d));
    }
}

/// A shift moves falling cells without changing their kinds.
pub proof fn lemma_shifted_uniform(g: Grid, d: ShiftDir, k: crate::board::Block)
    requires
        crate::board::grid_wf(g),
        crate::board::falling_uniform(g, k),
    ensures
        crate::board::falling_uniform(shifted(g, d), k),
{
    let g1 = shifted(g, d);
    assert forall|r: int, c: int| #[trigger] falling_at(g1, r, c) implies g1[r][c] == (
    BoardBlockState::Falling { block_type: k }) by {
        if falling_at(g, r - row_step(d), c - col_step(d)) {
            assert(g1[r][c] == g[r - row_step(d)][c - col_step(d)]);
        }
    }
}

/// Any number of attempted shifts moves falling cells without changing
/// their kinds.
pub proof fn lemma_shift_n_uniform(g: Grid, d: ShiftDir, n: int, k: crate::board::Block)
    requires
        crate::board::grid_wf(g),
        crate::board::falling_uniform(g, k),
    ensures
        crate::board::falling_uniform(shift_n(g, d, n), k),
    decreases n,
{
    if n > 0 {
        if can_shift(g, d) {
            lemma_shifted_uniform(g, d, k);
        }
        assert(crate::board::grid_wf(shift_step(g, d)));
        lemma_shift_n_uniform(shift_step(g, d), d, n - 1, k);
    }
}

/// Attempted shifts keep the grid well formed.
pub proof fn lemma_shift_n_wf(g: Grid, d: ShiftDir, n: int)
    requires
        crate::board::grid_wf(g),
    ensures
        crate::board::grid_wf(shift_n(g, d, n)),
    decreases n,
{
    if n > 0 {
        assert(crate::board::grid_wf(shift_step(g, d)));
        lemma_shift_n_wf(shift_step(g, d), d, n - 1);
    }
}

/// What one frame of input does to the board and the auto-shift timers:
/// rotations first, then the held direction's shifts under the
/// delayed-auto-shift rule, left taking priority over right; with no held
/// direction the delay timer resets. Nothing happens while no piece is
/// falling.
pub open spec fn movement_spec(
    g: Grid,
    block: crate::board::Block,
    input: InputState,
    delta: u64,
    t: DasTimer,
) -> (Grid, DasTimer) {
    if !crate::board::has_falling(g) {
        (g, t)
    } else {
        let g1 = if input.rotate_cw_just_pressed {
            crate::rotation::rotate_step(g, block, true)
        } else {
            g
        };
        let g2 = if input.rotate_ccw_just_pressed {
            crate::rotation::rotate_step(g1, block, false)
        } else {
            g1
        };
        if input.left_pressed {
            let tn = das_tick(t, delta, input.left_just_pressed, input.left_just_released);
            (shift_n(g2, ShiftDir::Left, tn.1), tn.0)
        } else if input.right_pressed {
            let tn = das_tick(t, delta, input.right_just_pressed, input.right_just_released);
            (shift_n(g2, ShiftDir::Right, tn.1), tn.0)
        } else {
            (g2, DasTimer { das: 0, speed: t.speed })
        }
    }
}

/// Apply one frame of player input to the falling piece: rotations, then
/// the held direction's shifts under delayed auto-shift.
pub fn block_movement_controls(
    board: &mut Board,
    block: crate::board::Block,
    input: &InputState,
    delta: u64,
    timer: &mut DasTimer,
)
    requires
        old(board).well_formed(),
    ensures
        final(board).well_formed(),
        final(board)@ == movement_spec(old(board)@, block, *input, delta, *old(timer)).0,
        *final(timer) == movement_spec(old(board)@, block, *input, delta, *old(timer)).1,
{
    if !crate::gravity::has_falling_piece(board) {
        return ;
    }
    if input.rotate_cw_just_pressed {
        crate::rotation::rotate_block(board, block, true);
    }
    if input.rotate_ccw_just_pressed {
        crate::rotation::rotate_block(board, block, false);
    }
    let ghost g2: Grid = board@;
    if input.left_pressed {
        let n = das_step(timer, delta, input.left_just_pressed, input.left_just_released);
        if n >= 1 {
            try_shift(board, ShiftDir::Left);
        }
        let ghost ga: Grid = board@;
        if n >= 2 {
            try_shift(board, ShiftDir::Left);
        }
        proof {
            lemma_shift_n_unroll(g2, ShiftDir::Left, n as int);
            if n >= 1 {
                assert(ga == shift_step(g2, ShiftDir::Left));
            }
            if n >= 2 {
                assert(board@ == shift_step(ga, ShiftDir::Left));
            }
            assert(board@ == shift_n(g2, ShiftDir::Left, n as int));
        }
    } else if input.right_pressed {
        let n = das_step(timer, delta, input.right_just_pressed, input.right_just_released);
        if n >= 1 {
            try_shift(board, ShiftDir::Right);
        }
        let ghost ga: Grid = board@;
        if n >= 2 {
            try_shift(board, ShiftDir::Right);
        }
        proof {
            lemma_shift_n_unroll(g2, ShiftDir::Right, n as int);
            if n >= 1 {
                assert(ga == shift_step(g2, ShiftDir::Right));
            }
            if n >= 2 {
                assert(board@ == shift_step(ga, ShiftDir::Right));
            }
            assert(board@ == shift_n(g2, ShiftDir::Right, n as int));
        }
    } else {
        timer.das = 0;
    }
}

} // verus!
