//! End-to-end tests driving whole frames: spawn, hold a direction through
//! the auto-shift delay, drop to a lock, clear a line, and the game-over
//! and reset paths.

use tetris_core::board::{Block, Board, BoardBlockState, BOARD_COLS, BOARD_ROWS};
use tetris_core::clear::clear_line;
use tetris_core::game::{start_game, GameSim, GameState};
use tetris_core::gravity::{block_gravity, SpeedTimer};
use tetris_core::movement::{block_movement_controls, DasTimer, InputState};
use tetris_core::progression::{level_up, Level, Lines, LinesIncrementEvent};
use tetris_core::spawn::{spawn_block, CurrentBlockWithPreview};

fn falling_cells(board: &Board) -> Vec<(usize, usize)> {
    let mut v = Vec::new();
    for r in 0..BOARD_ROWS {
        for c in 0..BOARD_COLS {
            if board.inner[r][c].is_falling() {
                v.push((r, c));
            }
        }
    }
    v
}

fn held_left(just_pressed: bool) -> InputState {
    InputState {
        left_pressed: true,
        left_just_pressed: just_pressed,
        ..InputState::default()
    }
}

#[test]
fn spawn_shift_drop_lock_and_clear() {
    // Spawn a T on an empty board: its four falling cells occupy the
    // canonical template, horizontally centred, in rows 0-1.
    let mut board = Board::new();
    assert!(spawn_block(&mut board, Block::T));
    assert_eq!(falling_cells(&board), vec![(0, 5), (1, 4), (1, 5), (1, 6)]);

    // Hold left for 200 ms (four 50 ms frames): one immediate shift on
    // the press, plus exactly one auto-shift -- the repeat timer starts
    // at the 150 ms mark and fires 50 ms later.
    let mut das = DasTimer { das: 0, speed: 0 };
    block_movement_controls(&mut board, Block::T, &held_left(true), 50, &mut das);
    assert_eq!(falling_cells(&board), vec![(0, 4), (1, 3), (1, 4), (1, 5)]);
    block_movement_controls(&mut board, Block::T, &held_left(false), 50, &mut das);
    block_movement_controls(&mut board, Block::T, &held_left(false), 50, &mut das);
    // 150 ms in: still only the immediate shift.
    assert_eq!(falling_cells(&board), vec![(0, 4), (1, 3), (1, 4), (1, 5)]);
    block_movement_controls(&mut board, Block::T, &held_left(false), 50, &mut das);
    // 200 ms in: one immediate plus one auto-shift in all.
    assert_eq!(falling_cells(&board), vec![(0, 3), (1, 2), (1, 3), (1, 4)]);

    // Drop until the piece cannot descend further: within the board's
    // height of elapsed gravity steps it locks entirely.
    let level = Level(9);
    let mut gravity = SpeedTimer { watch: 0 };
    let mut locked = false;
    for _ in 0..BOARD_ROWS {
        if block_gravity(&mut board, &level, false, 100, &mut gravity) {
            locked = true;
            break;
        }
    }
    assert!(locked);
    assert!(falling_cells(&board).is_empty());
    assert!(board.inner[18][3].is_placed());
    assert!(board.inner[19][2].is_placed());
    assert!(board.inner[19][3].is_placed());
    assert!(board.inner[19][4].is_placed());

    // Fill the bottom row completely: the clearer reports one line and
    // the counters record it.
    for c in 0..BOARD_COLS {
        board.set(19, c, BoardBlockState::Placed { block_type: Block::O });
    }
    let cleared = clear_line(&mut board);
    assert_eq!(cleared, 1);
    let mut lines = Lines { total_lines: 0, current_level_lines: 0 };
    let mut level = Level(9);
    level_up(&mut lines, &mut level, LinesIncrementEvent(cleared));
    assert_eq!(lines.total_lines, 1);
    assert_eq!(lines.current_level_lines, 1);
    assert_eq!(level.0, 9);
    // The locked T settled one row down into the cleared gap.
    assert!(board.inner[19][3].is_placed());
    assert!(falling_cells(&board).is_empty());
}

#[test]
fn frame_step_spawns_moves_and_locks() {
    let mut sim = GameSim::new();
    sim.preview = CurrentBlockWithPreview::from_parts(
        Block::T,
        vec![Block::T, Block::I, Block::O, Block::S, Block::Z],
    );
    // First frame with no time passing: the head of the queue spawns.
    let ev = sim.frame_step(&InputState::default(), 0, Block::J, Block::L);
    assert_eq!(ev.0, 0);
    assert_eq!(sim.active, Block::T);
    assert_eq!(sim.state, GameState::InGame);
    assert_eq!(falling_cells(&sim.board), vec![(0, 5), (1, 4), (1, 5), (1, 6)]);
    assert_eq!(sim.preview.preview, vec![Block::I, Block::O, Block::S, Block::Z, Block::J]);
    assert_eq!(sim.preview.current, Block::L);

    // A frame under the gravity duration with left just pressed: one
    // shift, no descent.
    let ev = sim.frame_step(&held_left(true), 50, Block::J, Block::L);
    assert_eq!(ev.0, 0);
    assert_eq!(falling_cells(&sim.board), vec![(0, 4), (1, 3), (1, 4), (1, 5)]);

    // A 100 ms frame at level 9 descends the piece one row.
    let ev = sim.frame_step(&InputState::default(), 100, Block::J, Block::L);
    assert_eq!(ev.0, 0);
    assert_eq!(falling_cells(&sim.board), vec![(1, 4), (2, 3), (2, 4), (2, 5)]);
}

#[test]
fn frame_step_reports_cleared_lines() {
    let mut sim = GameSim::new();
    sim.preview = CurrentBlockWithPreview::from_parts(
        Block::O,
        vec![Block::O, Block::I, Block::O, Block::S, Block::Z],
    );
    // Fill the bottom two rows except under the O spawn footprint
    // (columns 4 and 5), so the falling O completes both once it lands.
    for c in 0..BOARD_COLS {
        sim.board.set(19, c, BoardBlockState::Placed { block_type: Block::L });
    }
    sim.board.set(19, 4, BoardBlockState::Empty);
    sim.board.set(19, 5, BoardBlockState::Empty);
    for c in 0..BOARD_COLS {
        if c != 4 && c != 5 {
            sim.board.set(18, c, BoardBlockState::Placed { block_type: Block::L });
        }
    }
    // Spawn the O (columns 4-5, rows 0-1).
    sim.frame_step(&InputState::default(), 0, Block::J, Block::L);
    assert_eq!(sim.active, Block::O);
    // Let it fall to the bottom: each 100 ms frame descends one row;
    // when it lands it locks and both full rows clear in that frame.
    let mut total_cleared = 0;
    for _ in 0..40 {
        let ev = sim.frame_step(&InputState::default(), 100, Block::J, Block::L);
        total_cleared += ev.0;
        if falling_cells(&sim.board).is_empty() && total_cleared > 0 {
            break;
        }
    }
    assert_eq!(total_cleared, 2);
    assert_eq!(sim.lines.total_lines, 2);
    // Everything cleared: the board is empty again.
    for r in 0..BOARD_ROWS {
        for c in 0..BOARD_COLS {
            assert_eq!(sim.board.inner[r][c], BoardBlockState::Empty, "({}, {})", r, c);
        }
    }
}

#[test]
fn blocked_spawn_ends_the_game_and_reset_starts_over() {
    let mut sim = GameSim::new();
    sim.preview = CurrentBlockWithPreview::from_parts(
        Block::T,
        vec![Block::T, Block::I, Block::O, Block::S, Block::Z],
    );
    for c in 0..BOARD_COLS {
        sim.board.set(1, c, BoardBlockState::Placed { block_type: Block::J });
    }
    sim.frame_step(&InputState::default(), 0, Block::J, Block::L);
    assert_eq!(sim.state, GameState::GameOver);
    // Further frames change nothing.
    let before = falling_cells(&sim.board);
    sim.frame_step(&held_left(true), 100, Block::J, Block::L);
    assert_eq!(falling_cells(&sim.board), before);
    assert_eq!(sim.state, GameState::GameOver);
    // The reset clears the board and counters and resumes play.
    sim.clear_board();
    assert_eq!(sim.state, GameState::InGame);
    assert_eq!(sim.level, Level(9));
    assert_eq!(sim.lines.total_lines, 0);
    for r in 0..BOARD_ROWS {
        for c in 0..BOARD_COLS {
            assert_eq!(sim.board.inner[r][c], BoardBlockState::Empty);
        }
    }
}

#[test]
fn start_menu_waits_for_the_start_key() {
    assert_eq!(start_game(GameState::StartMenu, false), GameState::StartMenu);
    assert_eq!(start_game(GameState::StartMenu, true), GameState::InGame);
    assert_eq!(start_game(GameState::InGame, true), GameState::InGame);
    assert_eq!(start_game(GameState::GameOver, true), GameState::GameOver);
}

#[test]
fn random_draws_cover_several_kinds() {
    let mut seen = std::collections::BTreeSet::new();
    for _ in 0..200 {
        seen.insert(format!("{:?}", Block::generate_random()));
    }
    assert!(seen.len() >= 3, "only {:?}", seen);
}

#[test]
fn ticks_run_a_whole_random_game() {
    let mut sim = GameSim::new();
    let mut frames = 0;
    while sim.state == GameState::InGame && frames < 5000 {
        sim.tick(&InputState::default(), 20);
        frames += 1;
    }
    // With no player input the stack eventually tops out.
    assert_eq!(sim.state, GameState::GameOver);
}
