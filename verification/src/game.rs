//! The whole game as one frame-stepped state machine.
//!
//! One frame runs the phases in a fixed order: spawn the next piece if
//! none is falling, apply the player's rotations and shifts, advance
//! gravity (which may lock the piece), then clear full rows and credit
//! them to the progression counters. The board is the single shared
//! structure; each phase reads and conditionally writes it in turn.

use vstd::prelude::*;

use crate::board::{has_falling, Block, Board, Grid, BOARD_ROWS};
use crate::clear::{clear_line, collapsed, non_full_rows};
use crate::gravity::{block_gravity, gravity_fires, locked, SpeedTimer};
use crate::movement::{
    block_movement_controls, can_shift, movement_spec, shifted, DasTimer, InputState, ShiftDir,
};
use crate::progression::{level_up, Level, Lines, LinesIncrementEvent, Score};
use crate::spawn::{spawn_ok, spawn_result, CurrentBlockWithPreview, PREVIEW_COUNT};

verus! {

/// Where the game stands: waiting to start, running, or over.
#[derive(Debug, Clone, Copy, PartialEq, Eq, Structural)]
pub enum GameState {
    StartMenu,
    InGame,
    GameOver,
}

/// Leave the start menu for the game when the start key is pressed.
pub fn start_game(state: GameState, start_just_pressed: bool) -> (next: GameState)
    ensures
        next == (if start_just_pressed && state == (GameState::StartMenu) {
            GameState::InGame
        } else {
            state
        }),
{
    if start_just_pressed && matches!(state, GameState::StartMenu) {
        GameState::InGame
    } else {
        state
    }
}

/// The whole simulation state as it appears in specifications.
#[verifier::ext_equal]
pub ghost struct SimView {
    pub grid: Grid,
    pub level: Level,
    pub lines: Lines,
    pub score: Score,
    pub preview_seq: Seq<Block>,
    pub current: Block,
    pub active: Block,
    pub das: DasTimer,
    pub gravity_watch: u64,
    pub state: GameState,
}

/// The spawn phase: with no piece falling, pop the preview head, refill
/// the queue, stamp the head kind's template on the board, and pass to
/// game over if a destination was occupied.
pub open spec fn spawn_phase(v: SimView, draw_tail: Block, draw_current: Block) -> SimView {
    if has_falling(v.grid) {
        v
    } else {
        let k = v.preview_seq[0];
        SimView {
            grid: spawn_result(v.grid, k),
            preview_seq: v.preview_seq.subrange(1, PREVIEW_COUNT as int).push(draw_tail),
            current: draw_current,
            active: k,
            state: if spawn_ok(v.grid, k) {
                v.state
            } else {
                GameState::GameOver
            },
            ..v
        }
    }
}

/// The input phase: rotations and delayed-auto-shift movement.
pub open spec fn movement_phase(v: SimView, input: InputState, delta: u64) -> SimView {
    let gt = movement_spec(v.grid, v.active, input, delta, v.das);
    SimView { grid: gt.0, das: gt.1, ..v }
}

/// The gravity phase: descend or lock once the timer fires. Also tells
/// whether the piece locked this frame.
pub open spec fn gravity_phase(v: SimView, soft_drop: bool, delta: u64) -> (SimView, bool) {
    if !has_falling(v.grid) {
        (v, false)
    } else {
        let watch = v.gravity_watch.saturating_add(delta);
        if gravity_fires(watch, v.level, soft_drop) {
            if can_shift(v.grid, ShiftDir::Down) {
                (SimView { grid: shifted(v.grid, ShiftDir::Down), gravity_watch: 0, ..v }, false)
            } else {
                (SimView { grid: locked(v.grid), gravity_watch: 0, ..v }, true)
            }
        } else {
            (SimView { gravity_watch: watch, ..v }, false)
        }
    }
}

/// The clearing phase: collapse full rows and credit them to the
/// counters, levelling up on every tenth line. Also tells how many rows
/// cleared.
pub open spec fn clear_phase(v: SimView) -> (SimView, int) {
    let n = BOARD_ROWS - non_full_rows(v.grid, 0).len();
    let s = v.lines.current_level_lines + n;
    (
        SimView {
            grid: collapsed(v.grid),
            lines: Lines {
                total_lines: (v.lines.total_lines + n) as usize,
                current_level_lines: (s % 10) as usize,
            },
            level: Level((v.level.0 + s / 10) as u8),
            ..v
        },
        n as int,
    )
}

/// One whole frame: nothing outside the running state; otherwise spawn,
/// input, gravity, and, on a lock, clearing. A spawn onto an occupied
/// cell ends the frame at once with the game over. Gives the next state
/// and how many rows cleared.
pub open spec fn frame_spec(
    v: SimView,
    input: InputState,
    delta: u64,
    draw_tail: Block,
    draw_current: Block,
) -> (SimView, int) {
    if v.state != (GameState::InGame) {
        (v, 0)
    } else {
        let v1 = spawn_phase(v, draw_tail, draw_current);
        if v1.state == (GameState::GameOver) {
            (v1, 0)
        } else {
            let v2 = movement_phase(v1, input, delta);
            let gl = gravity_phase(v2, input.soft_drop_pressed, delta);
            if gl.1 {
                clear_phase(gl.0)
            } else {
                (gl.0, 0)
            }
        }
    }
}

/// The simulation state owned by the frame loop and handed to each phase.
#[derive(Debug)]
pub struct GameSim {
    pub board: Board,
    pub level: Level,
    pub lines: Lines,
    pub score: Score,
    pub preview: CurrentBlockWithPreview<PREVIEW_COUNT>,
    pub active: Block,
    pub das: DasTimer,
    pub gravity: SpeedTimer,
    pub state: GameState,
}

impl GameSim {
    /// The state as specifications see it.
    pub open spec fn view(&self) -> SimView {
        SimView {
            grid: self.board@,
            level: self.level,
            lines: self.lines,
            score: self.score,
            preview_seq: self.preview.preview@,
            current: self.preview.current,
            active: self.active,
            das: self.das,
            gravity_watch: self.gravity.watch,
            state: self.state,
        }
    }

    /// The board has its fixed size, the queue its fixed length, and the
    /// level progress stays below ten.
    pub open spec fn well_formed(&self) -> bool {
        &&& self.board.well_formed()
        &&& self.preview.well_formed()
        &&& self.lines.well_formed()
    }

    /// A fresh game: empty board, level nine, zeroed counters and timers,
    /// a freshly drawn preview queue, running.
    pub fn new() -> (sim: GameSim)
        ensures
            sim.well_formed(),
            sim.level == (Level(9)),
            sim.lines == (Lines { total_lines: 0, current_level_lines: 0 }),
            sim.score == (Score(0)),
            sim.das == (DasTimer { das: 0, speed: 0 }),
            sim.gravity == (SpeedTimer { watch: 0 }),
            sim.state == (GameState::InGame),
            forall|r: int, c: int|
                crate::board::on_board(r, c) ==> sim.board.cell(r, c) == (
                crate::board::BoardBlockState::Empty),
    {
        let preview: CurrentBlockWithPreview<PREVIEW_COUNT> = CurrentBlockWithPreview::new();
        let active = preview.current;
        GameSim {
            board: Board::new(),
            level: Level(9),
            lines: Lines { total_lines: 0, current_level_lines: 0 },
            score: Score(0),
            preview,
            active,
            das: DasTimer { das: 0, speed: 0 },
            gravity: SpeedTimer { watch: 0 },
            state: GameState::InGame,
        }
    }

    /// Reset everything to the fresh-game state, leaving game over behind.
    pub fn clear_board(&mut self)
        ensures
            final(self).well_formed(),
            final(self).level == (Level(9)),
            final(self).lines == (Lines { total_lines: 0, current_level_lines: 0 }),
            final(self).score == (Score(0)),
            final(self).das == (DasTimer { das: 0, speed: 0 }),
            final(self).gravity == (SpeedTimer { watch: 0 }),
            final(self).state == (GameState::InGame),
            forall|r: int, c: int|
                crate::board::on_board(r, c) ==> final(self).board.cell(r, c) == (
                crate::board::BoardBlockState::Empty),
    {
        *self = GameSim::new();
    }

    /// Run one frame with the given draws standing ready for a spawn:
    /// `draw_tail` refills the preview queue and `draw_current` becomes
    /// the redrawn current kind. Reports how many rows cleared.
    pub fn frame_step(
        &mut self,
        input: &InputState,
        delta_ms: u64,
        draw_tail: Block,
        draw_current: Block,
    ) -> (event: LinesIncrementEvent)
        requires
            old(self).well_formed(),
            old(self).lines.total_lines + BOARD_ROWS <= usize::MAX,
            old(self).level.0 <= 253,
        ensures
            final(self).well_formed(),
            final(self)@ == frame_spec(old(self)@, *input, delta_ms, draw_tail, draw_current).0,
            event.0 as int == frame_spec(old(self)@, *input, delta_ms, draw_tail, draw_current).1,
    {
        let ghost v0: SimView = self@;
        if !matches!(self.state, GameState::InGame) {
            return LinesIncrementEvent(0);
        }
        // Spawn phase.
        if !crate::gravity::has_falling_piece(&self.board) {
            let head = self.preview.advance(draw_tail, draw_current);
            self.active = head;
            if !crate::spawn::spawn_block(&mut self.board, head) {
                self.state = GameState::GameOver;
                proof {
                    assert(self@ =~~= spawn_phase(v0, draw_tail, draw_current));
                }
                return LinesIncrementEvent(0);
            }
        }
        let ghost v1: SimView = self@;
        proof {
            assert(v1 =~~= spawn_phase(v0, draw_tail, draw_current));
        }
        // Input phase.
        block_movement_controls(&mut self.board, self.active, input, delta_ms, &mut self.das);
        let ghost v2: SimView = self@;
        proof {
            assert(v2 =~~= movement_phase(v1, *input, delta_ms));
        }
        // Gravity phase.
        let locked_now = block_gravity(
            &mut self.board,
            &self.level,
            input.soft_drop_pressed,
            delta_ms,
            &mut self.gravity,
        );
        let ghost v3: SimView = self@;
        proof {
            assert(v3 =~~= gravity_phase(v2, input.soft_drop_pressed, delta_ms).0);
            assert(locked_now == gravity_phase(v2, input.soft_drop_pressed, delta_ms).1);
        }
        if !locked_now {
            return LinesIncrementEvent(0);
        }
        // Clearing phase.
        let cleared = clear_line(&mut self.board);
        level_up(&mut self.lines, &mut self.level, LinesIncrementEvent(cleared));
        proof {
            assert(self@ =~~= clear_phase(v3).0);
            assert(cleared as int == clear_phase(v3).1);
        }
        LinesIncrementEvent(cleared)
    }

    /// Run one frame, drawing the spawn refills from the randomness
    /// source.
    pub fn tick(&mut self, input: &InputState, delta_ms: u64) -> (event: LinesIncrementEvent)
        requires
            old(self).well_formed(),
            old(self).lines.total_lines + BOARD_ROWS <= usize::MAX,
            old(self).level.0 <= 253,
        ensures
            final(self).well_formed(),
            exists|a: Block, b: Block|
                final(self)@ == #[trigger] frame_spec(old(self)@, *input, delta_ms, a, b).0
                    && event.0 as int == frame_spec(old(self)@, *input, delta_ms, a, b).1,
    {
        let a = Block::generate_random();
        let b = Block::generate_random();
        self.frame_step(input, delta_ms, a, b)
    }
}

/// The spawn phase keeps the board well formed and all falling cells of
/// the active kind.
proof fn lemma_spawn_phase_uniform(v: SimView, a: Block, b: Block)
    requires
        crate::board::grid_wf(v.grid),
        crate::board::falling_uniform(v.grid, v.active),
    ensures
        crate::board::grid_wf(spawn_phase(v, a, b).grid),
        crate::board::falling_uniform(spawn_phase(v, a, b).grid, spawn_phase(v, a, b).active),
{
    if !has_falling(v.grid) {
        let k = v.preview_seq[0];
        crate::spawn::lemma_spawn_uniform(v.grid, k);
        assert(crate::board::grid_wf(spawn_result(v.grid, k)));
    }
}

/// The input phase keeps the board well formed and all falling cells of
/// the active kind.
proof fn lemma_movement_phase_uniform(v: SimView, input: InputState, delta: u64)
    requires
        crate::board::grid_wf(v.grid),
        crate::board::falling_uniform(v.grid, v.active),
    ensures
        crate::board::grid_wf(movement_phase(v, input, delta).grid),
        crate::board::falling_uniform(movement_phase(v, input, delta).grid, v.active),
{
    if has_falling(v.grid) {
        let g1 = if input.rotate_cw_just_pressed {
            crate::rotation::rotate_step(v.grid, v.active, true)
        } else {
            v.grid
        };
        crate::rotation::lemma_rotate_step_uniform(v.grid, v.active, true, v.active);
        assert(crate::board::grid_wf(g1));
        let g2 = if input.rotate_ccw_just_pressed {
            crate::rotation::rotate_step(g1, v.active, false)
        } else {
            g1
        };
        crate::rotation::lemma_rotate_step_uniform(g1, v.active, false, v.active);
        assert(crate::board::grid_wf(g2));
        if input.left_pressed {
            let tn = crate::movement::das_tick(
                v.das,
                delta,
                input.left_just_pressed,
                input.left_just_released,
            );
            crate::movement::lemma_shift_n_uniform(g2, ShiftDir::Left, tn.1, v.active);
            crate::movement::lemma_shift_n_wf(g2, ShiftDir::Left, tn.1);
        } else if input.right_pressed {
            let tn = crate::movement::das_tick(
                v.das,
                delta,
                input.right_just_pressed,
                input.right_just_released,
            );
            crate::movement::lemma_shift_n_uniform(g2, ShiftDir::Right, tn.1, v.active);
            crate::movement::lemma_shift_n_wf(g2, ShiftDir::Right, tn.1);
        }
    }
}

/// The gravity phase keeps the board well formed and all falling cells of
/// the active kind.
proof fn lemma_gravity_phase_uniform(v: SimView, soft_drop: bool, delta: u64)
    requires
        crate::board::grid_wf(v.grid),
        crate::board::falling_uniform(v.grid, v.active),
    ensures
        crate::board::grid_wf(gravity_phase(v, soft_drop, delta).0.grid),
        crate::board::falling_uniform(
            gravity_phase(v, soft_drop, delta).0.grid,
            v.active,
        ),
{
    if has_falling(v.grid) {
        let watch = v.gravity_watch.saturating_add(delta);
        if gravity_fires(watch, v.level, soft_drop) {
            if can_shift(v.grid, ShiftDir::Down) {
                crate::movement::lemma_shifted_uniform(v.grid, ShiftDir::Down, v.active);
            } else {
                crate::gravity::lemma_locked_no_falling(v.grid);
            }
        }
    }
}

/// The board invariant of the design: at most one piece's cells are
/// falling at any time -- every falling cell carries the active kind --
/// and one whole frame preserves it, whatever the input, timing and
/// random draws.
pub proof fn lemma_frame_preserves_single_piece(
    v: SimView,
    input: InputState,
    delta: u64,
    a: Block,
    b: Block,
)
    requires
        crate::board::grid_wf(v.grid),
        crate::board::falling_uniform(v.grid, v.active),
    ensures
        crate::board::grid_wf(frame_spec(v, input, delta, a, b).0.grid),
        crate::board::falling_uniform(
            frame_spec(v, input, delta, a, b).0.grid,
            frame_spec(v, input, delta, a, b).0.active,
        ),
{
    if v.state == (GameState::InGame) {
        let v1 = spawn_phase(v, a, b);
        lemma_spawn_phase_uniform(v, a, b);
        if v1.state != (GameState::GameOver) {
            let v2 = movement_phase(v1, input, delta);
            lemma_movement_phase_uniform(v1, input, delta);
            let gl = gravity_phase(v2, input.soft_drop_pressed, delta);
            lemma_gravity_phase_uniform(v2, input.soft_drop_pressed, delta);
            if gl.1 {
                crate::clear::lemma_collapsed_uniform(gl.0.grid, gl.0.active);
                crate::clear::lemma_collapsed_wf(gl.0.grid);
            }
        }
    }
}

} // verus!
