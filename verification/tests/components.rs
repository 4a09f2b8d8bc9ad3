//! Unit tests for the catalog, the preview queue, the spawner, the
//! delayed-auto-shift timers and the progression counters.

use tetris_core::board::{Block, Board, BoardBlockState, BOARD_COLS};
use tetris_core::definition::BlockColor;
use tetris_core::movement::{das_step, DasTimer, DAS_DELAY_MS, DAS_REPEAT_MS};
use tetris_core::progression::{level_up, Level, Lines, LinesIncrementEvent};
use tetris_core::spawn::{block_spawner, spawn_block, CurrentBlockWithPreview, SpawnOutcome};

#[test]
fn templates_have_four_falling_cells_in_spawn_pose() {
    for kind in [Block::T, Block::J, Block::L, Block::I, Block::O, Block::S, Block::Z] {
        let t = kind.get_occupied();
        let mut falling = 0;
        for row in &t {
            for cell in row {
                if cell.is_falling() {
                    falling += 1;
                }
                assert!(!cell.is_placed());
            }
        }
        assert_eq!(falling, 4, "kind {:?}", kind);
        // The template is square, with the side of the rotation window,
        // and its occupied band starts in the top row.
        assert_eq!(t.len(), kind.window());
        assert!(t.iter().all(|row| row.len() == kind.window()));
        assert!(t[0].iter().any(|c| c.is_falling()));
    }
}

#[test]
fn template_shapes_match_the_catalog() {
    let t = Block::T.get_occupied();
    let f = BoardBlockState::Falling { block_type: Block::T };
    let e = BoardBlockState::Empty;
    assert_eq!(t[0], vec![e, f, e]);
    assert_eq!(t[1], vec![f, f, f]);
    assert_eq!(t[2], vec![e, e, e]);
    let i = Block::I.get_occupied();
    assert_eq!(i.len(), 4);
    assert_eq!(i[0].len(), 4);
    assert!(i[0].iter().all(|c| c.is_falling()));
}

#[test]
fn colors_and_letters_follow_the_kind() {
    assert_eq!(Block::T.get_color(), BlockColor::Purple);
    assert_eq!(Block::J.get_color(), BlockColor::Blue);
    assert_eq!(Block::L.get_color(), BlockColor::Orange);
    assert_eq!(Block::I.get_color(), BlockColor::Cyan);
    assert_eq!(Block::O.get_color(), BlockColor::Yellow);
    assert_eq!(Block::S.get_color(), BlockColor::Red);
    assert_eq!(Block::Z.get_color(), BlockColor::Green);
    assert_eq!(Block::T.letter(), 'T');
    assert_eq!(Block::Z.letter(), 'Z');
}

#[test]
fn spawned_template_lands_centred_at_the_top() {
    let mut board = Board::new();
    assert!(spawn_block(&mut board, Block::T));
    assert!(board.inner[0][5].is_falling());
    assert!(board.inner[1][4].is_falling());
    assert!(board.inner[1][5].is_falling());
    assert!(board.inner[1][6].is_falling());
    let mut board2 = Board::new();
    assert!(spawn_block(&mut board2, Block::I));
    for c in 3..7 {
        assert!(board2.inner[0][c].is_falling());
    }
}

#[test]
fn spawn_onto_an_occupied_cell_reports_game_over() {
    let mut board = Board::new();
    board.set(1, 4, BoardBlockState::Placed { block_type: Block::O });
    assert!(!spawn_block(&mut board, Block::T));
    // The occupied cell survives untouched.
    assert_eq!(board.inner[1][4], BoardBlockState::Placed { block_type: Block::O });
}

#[test]
fn spawn_ignores_cells_under_empty_template_positions() {
    let mut board = Board::new();
    // (0,4) and (2,4) sit inside the T's window but under empty template
    // positions: they neither block the spawn nor get overwritten.
    board.set(0, 4, BoardBlockState::Placed { block_type: Block::O });
    board.set(2, 4, BoardBlockState::Placed { block_type: Block::O });
    assert!(spawn_block(&mut board, Block::T));
    assert_eq!(board.inner[0][4], BoardBlockState::Placed { block_type: Block::O });
    assert_eq!(board.inner[2][4], BoardBlockState::Placed { block_type: Block::O });
    assert!(board.inner[0][5].is_falling());
    assert!(board.inner[1][4].is_falling());
    assert!(board.inner[1][5].is_falling());
    assert!(board.inner[1][6].is_falling());
}

#[test]
fn spawn_stops_at_the_first_occupied_destination() {
    let mut board = Board::new();
    // The T's occupied cells land, in row-major order, at (0,5), (1,4),
    // (1,5), (1,6). Occupy (1,5): the cells written before it stay.
    board.set(1, 5, BoardBlockState::Placed { block_type: Block::O });
    assert!(!spawn_block(&mut board, Block::T));
    // (0,5) and (1,4) come before (1,5) in overwrite order.
    assert!(board.inner[0][5].is_falling());
    assert!(board.inner[1][4].is_falling());
    // (1,6) comes after the collision and was never written.
    assert_eq!(board.inner[1][6], BoardBlockState::Empty);
}

#[test]
fn preview_queue_pops_head_and_keeps_order() {
    let mut q: CurrentBlockWithPreview<5> = CurrentBlockWithPreview::from_parts(
        Block::T,
        vec![Block::I, Block::O, Block::S, Block::Z, Block::J],
    );
    let head = q.advance(Block::L, Block::T);
    assert_eq!(head, Block::I);
    assert_eq!(q.preview, vec![Block::O, Block::S, Block::Z, Block::J, Block::L]);
    let head = q.advance(Block::I, Block::T);
    assert_eq!(head, Block::O);
    assert_eq!(q.preview, vec![Block::S, Block::Z, Block::J, Block::L, Block::I]);
}

#[test]
fn spawner_skips_while_a_piece_is_falling() {
    let mut board = Board::new();
    let mut q: CurrentBlockWithPreview<5> = CurrentBlockWithPreview::from_parts(
        Block::T,
        vec![Block::I, Block::O, Block::S, Block::Z, Block::J],
    );
    assert_eq!(block_spawner(&mut board, &mut q), SpawnOutcome::Spawned);
    // The I spawned; with it still falling the next call does nothing.
    assert_eq!(q.preview[3], Block::J);
    assert_eq!(block_spawner(&mut board, &mut q), SpawnOutcome::Skipped);
    assert_eq!(q.preview[3], Block::J);
}

#[test]
fn spawner_reports_game_over_on_a_blocked_board() {
    let mut board = Board::new();
    for c in 0..BOARD_COLS {
        board.set(1, c, BoardBlockState::Placed { block_type: Block::O });
    }
    let mut q: CurrentBlockWithPreview<5> = CurrentBlockWithPreview::from_parts(
        Block::T,
        vec![Block::S, Block::O, Block::S, Block::Z, Block::J],
    );
    assert_eq!(block_spawner(&mut board, &mut q), SpawnOutcome::GameOver);
}

#[test]
fn das_shifts_once_on_press_and_repeats_after_the_delay() {
    let mut t = DasTimer { das: 0, speed: 0 };
    // Just pressed: one immediate shift.
    assert_eq!(das_step(&mut t, 50, true, false), 1);
    assert_eq!(t.das, 50);
    // Held, still under the delay: no shift.
    assert_eq!(das_step(&mut t, 50, false, false), 0);
    assert_eq!(t.das, 100);
    // The delay mark is crossed exactly now: the repeat timer starts
    // counting from it, so nothing fires yet.
    assert_eq!(das_step(&mut t, 50, false, false), 0);
    assert_eq!(t.das, 150);
    assert_eq!(t.speed, 0);
    // The first auto-repeat fires once DAS_REPEAT_MS pass the mark,
    // and every DAS_REPEAT_MS after that.
    assert_eq!(das_step(&mut t, 25, false, false), 0);
    assert_eq!(das_step(&mut t, 25, false, false), 1);
    assert_eq!(t.speed, 0);
    assert_eq!(das_step(&mut t, 50, false, false), 1);
    assert_eq!(DAS_DELAY_MS, 150);
    assert_eq!(DAS_REPEAT_MS, 50);
}

#[test]
fn das_release_resets_the_delay_timer() {
    let mut t = DasTimer { das: 200, speed: 0 };
    // Released while auto-repeat was running: the delay timer resets.
    das_step(&mut t, 10, false, true);
    assert_eq!(t.das, 0);
}

#[test]
fn level_up_counts_lines_and_carries_the_remainder() {
    let mut lines = Lines { total_lines: 0, current_level_lines: 0 };
    let mut level = Level(9);
    level_up(&mut lines, &mut level, LinesIncrementEvent(4));
    assert_eq!(lines.total_lines, 4);
    assert_eq!(lines.current_level_lines, 4);
    assert_eq!(level.0, 9);
    level_up(&mut lines, &mut level, LinesIncrementEvent(4));
    assert_eq!(lines.total_lines, 8);
    assert_eq!(lines.current_level_lines, 8);
    assert_eq!(level.0, 9);
    level_up(&mut lines, &mut level, LinesIncrementEvent(4));
    assert_eq!(lines.total_lines, 12);
    assert_eq!(lines.current_level_lines, 2);
    assert_eq!(level.0, 10);
}

#[test]
fn level_up_handles_more_than_ten_lines_at_once() {
    let mut lines = Lines { total_lines: 3, current_level_lines: 9 };
    let mut level = Level(0);
    level_up(&mut lines, &mut level, LinesIncrementEvent(12));
    assert_eq!(lines.total_lines, 15);
    assert_eq!(lines.current_level_lines, 1);
    assert_eq!(level.0, 2);
}

#[test]
fn default_level_is_nine() {
    assert_eq!(Level::default(), Level(9));
    assert_eq!(Lines::default().total_lines, 0);
    assert_eq!(Lines::default().current_level_lines, 0);
}
