//! Scenario tests for the stated behaviour of the engine: cell states,
//! rotation, shifting, clearing, gravity timing and locking.

use tetris_core::board::{Block, Board, BoardBlockState, BOARD_COLS, BOARD_ROWS};
use tetris_core::clear::clear_line;
use tetris_core::gravity::{block_gravity, SpeedTimer};
use tetris_core::movement::{try_shift, ShiftDir};
use tetris_core::progression::Level;
use tetris_core::rotation::rotate_block;
use tetris_core::spawn::spawn_block;

fn falling_cells(board: &Board) -> Vec<(usize, usize)> {
    let mut v = Vec::new();
    for r in 0..BOARD_ROWS {
        for c in 0..BOARD_COLS {
            if board.inner[r][c].is_falling() {
                v.push((r, c));
            }
        }
    }
    v
}

fn placed_cells(board: &Board) -> Vec<(usize, usize)> {
    let mut v = Vec::new();
    for r in 0..BOARD_ROWS {
        for c in 0..BOARD_COLS {
            if board.inner[r][c].is_placed() {
                v.push((r, c));
            }
        }
    }
    v
}

#[test]
fn cell_states_are_mutually_exclusive_and_exhaustive() {
    let cells = [
        BoardBlockState::Empty,
        BoardBlockState::Falling { block_type: Block::T },
        BoardBlockState::Placed { block_type: Block::I },
    ];
    for c in cells {
        assert!(!(c.is_falling() && c.is_placed()));
        assert!(c.is_falling() || c.is_placed() || c == BoardBlockState::Empty);
    }
    assert!(BoardBlockState::Falling { block_type: Block::S }.is_falling());
    assert!(!BoardBlockState::Falling { block_type: Block::S }.is_placed());
    assert!(BoardBlockState::Placed { block_type: Block::Z }.is_placed());
    assert!(!BoardBlockState::Placed { block_type: Block::Z }.is_falling());
    assert!(!BoardBlockState::Empty.is_falling());
    assert!(!BoardBlockState::Empty.is_placed());
}

#[test]
fn rotating_the_o_piece_is_a_no_op_either_way() {
    let mut board = Board::new();
    assert!(spawn_block(&mut board, Block::O));
    let before = falling_cells(&board);
    rotate_block(&mut board, Block::O, true);
    assert_eq!(falling_cells(&board), before);
    rotate_block(&mut board, Block::O, false);
    assert_eq!(falling_cells(&board), before);
}

#[test]
fn four_clockwise_rotations_restore_every_rotating_piece() {
    for kind in [Block::T, Block::J, Block::L, Block::I, Block::S, Block::Z] {
        let mut board = Board::new();
        assert!(spawn_block(&mut board, kind));
        let before = falling_cells(&board);
        for _ in 0..4 {
            rotate_block(&mut board, kind, true);
        }
        assert_eq!(falling_cells(&board), before, "kind {:?}", kind);
    }
}

#[test]
fn clockwise_then_counter_clockwise_restores() {
    for kind in [Block::T, Block::J, Block::L, Block::I, Block::S, Block::Z] {
        let mut board = Board::new();
        assert!(spawn_block(&mut board, kind));
        let before = falling_cells(&board);
        rotate_block(&mut board, kind, true);
        rotate_block(&mut board, kind, false);
        assert_eq!(falling_cells(&board), before, "kind {:?}", kind);
    }
}

#[test]
fn i_piece_turns_between_exact_positions() {
    let mut board = Board::new();
    assert!(spawn_block(&mut board, Block::I));
    assert_eq!(falling_cells(&board), vec![(0, 3), (0, 4), (0, 5), (0, 6)]);
    rotate_block(&mut board, Block::I, true);
    assert_eq!(falling_cells(&board), vec![(0, 3), (1, 3), (2, 3), (3, 3)]);
    rotate_block(&mut board, Block::I, true);
    assert_eq!(falling_cells(&board), vec![(0, 3), (0, 4), (0, 5), (0, 6)]);
}

#[test]
fn blocked_rotation_is_rejected_entirely() {
    let mut board = Board::new();
    assert!(spawn_block(&mut board, Block::T));
    // The T spawns at (0,5),(1,4),(1,5),(1,6); turning clockwise wants
    // (0,4),(1,4),(1,5),(2,4). Occupy (2,4) with a placed cell.
    board.set(2, 4, BoardBlockState::Placed { block_type: Block::Z });
    let before = falling_cells(&board);
    rotate_block(&mut board, Block::T, true);
    assert_eq!(falling_cells(&board), before);
    assert!(board.inner[2][4].is_placed());
}

#[test]
fn rejected_shift_at_the_wall_changes_nothing() {
    let mut board = Board::new();
    assert!(spawn_block(&mut board, Block::T));
    // Walk the piece to the left wall, then one more shift must be
    // rejected with every falling cell unchanged.
    for _ in 0..4 {
        try_shift(&mut board, ShiftDir::Left);
    }
    let at_wall = falling_cells(&board);
    assert!(at_wall.iter().any(|&(_, c)| c == 0));
    let moved = try_shift(&mut board, ShiftDir::Left);
    assert!(!moved);
    assert_eq!(falling_cells(&board), at_wall);
}

#[test]
fn rejected_shift_against_a_placed_cell_changes_nothing() {
    let mut board = Board::new();
    assert!(spawn_block(&mut board, Block::T));
    // The T occupies (0,5),(1,4),(1,5),(1,6): a placed cell at (1,3)
    // blocks the shift left.
    board.set(1, 3, BoardBlockState::Placed { block_type: Block::J });
    let before = falling_cells(&board);
    let moved = try_shift(&mut board, ShiftDir::Left);
    assert!(!moved);
    assert_eq!(falling_cells(&board), before);
    // The shift right is still legal and moves every cell one column.
    let moved = try_shift(&mut board, ShiftDir::Right);
    assert!(moved);
    assert_eq!(falling_cells(&board), vec![(0, 6), (1, 5), (1, 6), (1, 7)]);
}

#[test]
fn clearing_a_full_row_at_index_five_shifts_rows_down() {
    let mut board = Board::new();
    for c in 0..BOARD_COLS {
        board.set(5, c, BoardBlockState::Placed { block_type: Block::L });
    }
    // Markers above and below the full row.
    board.set(3, 2, BoardBlockState::Placed { block_type: Block::S });
    board.set(7, 8, BoardBlockState::Placed { block_type: Block::Z });
    let cleared = clear_line(&mut board);
    assert_eq!(cleared, 1);
    // Row 0 ends empty; rows 0..=4 each shifted down by one; the marker
    // at (3,2) is now at (4,2); row 5 took old row 4 (empty); the cells
    // below the cleared row did not move.
    for c in 0..BOARD_COLS {
        assert_eq!(board.inner[0][c], BoardBlockState::Empty);
        assert_eq!(board.inner[5][c], BoardBlockState::Empty);
    }
    assert_eq!(board.inner[4][2], BoardBlockState::Placed { block_type: Block::S });
    assert_eq!(board.inner[3][2], BoardBlockState::Empty);
    assert_eq!(board.inner[7][8], BoardBlockState::Placed { block_type: Block::Z });
    assert_eq!(placed_cells(&board).len(), 2);
}

#[test]
fn clearing_two_separated_rows_collapses_in_order() {
    let mut board = Board::new();
    for c in 0..BOARD_COLS {
        board.set(17, c, BoardBlockState::Placed { block_type: Block::I });
        board.set(19, c, BoardBlockState::Placed { block_type: Block::I });
    }
    board.set(16, 0, BoardBlockState::Placed { block_type: Block::T });
    board.set(18, 9, BoardBlockState::Placed { block_type: Block::J });
    let cleared = clear_line(&mut board);
    assert_eq!(cleared, 2);
    // Kept rows, in order, settle at the bottom: old row 16 lands at 18,
    // old row 18 lands at 19.
    assert_eq!(board.inner[18][0], BoardBlockState::Placed { block_type: Block::T });
    assert_eq!(board.inner[19][9], BoardBlockState::Placed { block_type: Block::J });
    assert_eq!(placed_cells(&board).len(), 2);
}

#[test]
fn gravity_duration_matches_the_table() {
    assert_eq!(Level(9).get_duraiton(), 100);
    assert_eq!(Level(19).get_duraiton(), 33);
    assert_eq!(Level(0).get_duraiton(), 48 * 1000 / 60);
    assert_eq!(Level(1).get_duraiton(), 43 * 1000 / 60);
    assert_eq!(Level(8).get_duraiton(), 8 * 1000 / 60);
    assert_eq!(Level(10).get_duraiton(), 5 * 1000 / 60);
    assert_eq!(Level(12).get_duraiton(), 5 * 1000 / 60);
    assert_eq!(Level(13).get_duraiton(), 4 * 1000 / 60);
    assert_eq!(Level(16).get_duraiton(), 3 * 1000 / 60);
    assert_eq!(Level(28).get_duraiton(), 2 * 1000 / 60);
    assert_eq!(Level(29).get_duraiton(), 1000 / 60);
    assert_eq!(Level(255).get_duraiton(), 1000 / 60);
}

#[test]
fn blocked_piece_locks_entirely_when_the_timer_elapses() {
    let mut board = Board::new();
    // A vertical pair whose lowest cell sits on placed ground.
    board.set(17, 4, BoardBlockState::Falling { block_type: Block::I });
    board.set(18, 4, BoardBlockState::Falling { block_type: Block::I });
    board.set(19, 4, BoardBlockState::Placed { block_type: Block::O });
    let level = Level(9);
    let mut timer = SpeedTimer { watch: 0 };
    // Before the timer elapses nothing happens.
    let locked = block_gravity(&mut board, &level, false, 40, &mut timer);
    assert!(!locked);
    assert_eq!(falling_cells(&board), vec![(17, 4), (18, 4)]);
    // Once it elapses, the whole piece converts to placed at once.
    let locked = block_gravity(&mut board, &level, false, 60, &mut timer);
    assert!(locked);
    assert!(falling_cells(&board).is_empty());
    assert!(board.inner[17][4].is_placed());
    assert!(board.inner[18][4].is_placed());
    assert_eq!(timer.watch, 0);
}

#[test]
fn piece_on_the_floor_locks_entirely() {
    let mut board = Board::new();
    board.set(19, 0, BoardBlockState::Falling { block_type: Block::L });
    board.set(19, 1, BoardBlockState::Falling { block_type: Block::L });
    board.set(18, 1, BoardBlockState::Falling { block_type: Block::L });
    let mut timer = SpeedTimer { watch: 0 };
    let locked = block_gravity(&mut board, &Level(9), false, 100, &mut timer);
    assert!(locked);
    assert!(falling_cells(&board).is_empty());
    assert_eq!(placed_cells(&board).len(), 3);
}

#[test]
fn soft_drop_accelerates_low_levels_only() {
    let mut board = Board::new();
    assert!(spawn_block(&mut board, Block::S));
    let before = falling_cells(&board);
    let mut timer = SpeedTimer { watch: 0 };
    // 40 ms is under level 9's 100 ms, but over the soft-drop 33 ms.
    let locked = block_gravity(&mut board, &Level(9), true, 40, &mut timer);
    assert!(!locked);
    let after: Vec<(usize, usize)> = before.iter().map(|&(r, c)| (r + 1, c)).collect();
    assert_eq!(falling_cells(&board), after);
    // Above level 19 the soft drop has no effect below the table time.
    let mut board2 = Board::new();
    assert!(spawn_block(&mut board2, Block::S));
    let spawned = falling_cells(&board2);
    let mut timer2 = SpeedTimer { watch: 0 };
    let locked2 = block_gravity(&mut board2, &Level(20), true, 20, &mut timer2);
    assert!(!locked2);
    assert_eq!(falling_cells(&board2), spawned);
}
