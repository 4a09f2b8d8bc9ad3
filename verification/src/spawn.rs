//! The preview queue and the spawner.
//!
//! The queue holds the next few kinds; spawning pops its head, pushes one
//! fresh random kind, and stamps the head kind's occupied template cells
//! onto the board starting at row 0, horizontally centred. The occupied
//! cells are checked and written one by one in row-major order; the first
//! destination that is not empty stops the spawn and signals the
//! game-over transition. Empty template positions are neither checked nor
//! written.

use vstd::prelude::*;

use crate::board::{
    grid_wf, has_falling, Block, Board, BoardBlockState, Grid, BOARD_COLS, BOARD_ROWS,
};
use crate::gravity::has_falling_piece;

verus! {

/// How many upcoming kinds the preview queue shows.
pub const PREVIEW_COUNT: usize = 5;

/// The kind in play and the queue of upcoming kinds.
#[derive(Debug, Clone)]
pub struct CurrentBlockWithPreview<const T: usize> {
    pub current: Block,
    pub preview: Vec<Block>,
}

impl<const T: usize> CurrentBlockWithPreview<T> {
    /// The queue always holds exactly `T` kinds.
    pub open spec fn well_formed(&self) -> bool {
        self.preview@.len() == T
    }

    /// A queue with the given head state; the head of `preview` is the
    /// next kind to spawn.
    pub fn from_parts(current: Block, preview: Vec<Block>) -> (q: Self)
        requires
            preview@.len() == T,
        ensures
            q.well_formed(),
            q.current == current,
            q.preview@ == preview@,
    {
        CurrentBlockWithPreview { current, preview }
    }

    /// A queue filled with independent random draws.
    pub fn new() -> (q: Self)
        ensures
            q.well_formed(),
    {
        let mut preview: Vec<Block> = Vec::new();
        for i in 0..T
            invariant
                preview@.len() == i,
        {
            preview.push(Block::generate_random());
        }
        CurrentBlockWithPreview { current: Block::generate_random(), preview }
    }

    /// Pop the head of the queue, append `next_tail`, and replace the
    /// current kind with `next_current`. Returns the popped head.
    pub fn advance(&mut self, next_tail: Block, next_current: Block) -> (head: Block)
        requires
            old(self).well_formed(),
            T >= 1,
        ensures
            final(self).well_formed(),
            head == old(self).preview@[0],
            final(self).preview@ == old(self).preview@.subrange(1, T as int).push(next_tail),
            final(self).current == next_current,
    {
        let head = self.preview[0];
        self.preview.remove(0);
        self.preview.push(next_tail);
        self.current = next_current;
        proof {
            assert(self.preview@ =~= old(self).preview@.subrange(1, T as int).push(next_tail));
        }
        head
    }

    /// Pop the head of the queue, refill the tail with one fresh random
    /// draw, and redraw the current kind. Returns the popped head.
    pub fn get_and_generate_new_random(&mut self) -> (head: Block)
        requires
            old(self).well_formed(),
            T >= 1,
        ensures
            final(self).well_formed(),
            head == old(self).preview@[0],
            final(self).preview@.subrange(0, T as int - 1) == old(self).preview@.subrange(
                1,
                T as int,
            ),
    {
        let tail = Block::generate_random();
        let current = Block::generate_random();
        let head = self.advance(tail, current);
        proof {
            assert(self.preview@.subrange(0, T as int - 1) =~= old(self).preview@.subrange(
                1,
                T as int,
            ));
        }
        head
    }
}

impl<const T: usize> Default for CurrentBlockWithPreview<T> {
    /// A queue filled with independent random draws.
    fn default() -> (q: Self)
        ensures
            q.well_formed(),
    {
        CurrentBlockWithPreview::new()
    }
}

/// How many rows the kind's template has.
pub open spec fn template_rows(block: Block) -> int {
    block.spec_occupied().len() as int
}

/// How many cells each of the kind's template rows has.
pub open spec fn template_cols(block: Block) -> int {
    block.spec_occupied()[0].len() as int
}

/// The column the template's left edge spawns at: the board centre less
/// half the template width.
pub open spec fn spawn_col(block: Block) -> int {
    BOARD_COLS as int / 2 - template_cols(block) / 2
}

/// Whether the template cell at `(i, j)` cannot land: the template is
/// occupied there and the board cell under it is not empty. Empty
/// template positions never block and are never written.
pub open spec fn spawn_blocked_at(g: Grid, block: Block, i: int, j: int) -> bool {
    &&& block.spec_occupied()[i][j].spec_is_falling()
    &&& g[i][spawn_col(block) + j] != (BoardBlockState::Empty)
}

/// The first position from `j` on in template row `i` whose occupied cell
/// is blocked, or the template width if none is.
pub open spec fn first_blocked_in_row(g: Grid, block: Block, i: int, j: int) -> int
    decreases template_cols(block) - j,
{
    if j < 0 || j >= template_cols(block) {
        template_cols(block)
    } else if spawn_blocked_at(g, block, i, j) {
        j
    } else {
        first_blocked_in_row(g, block, i, j + 1)
    }
}

/// The first template row from `i` on with a blocked cell, or the template
/// height if every cell is clear.
pub open spec fn first_blocked_row(g: Grid, block: Block, i: int) -> int
    decreases template_rows(block) - i,
{
    if i < 0 || i >= template_rows(block) {
        template_rows(block)
    } else if first_blocked_in_row(g, block, i, 0) < template_cols(block) {
        i
    } else {
        first_blocked_row(g, block, i + 1)
    }
}

/// Whether every board cell under an occupied template cell is empty, so
/// the spawn succeeds in full.
pub open spec fn spawn_ok(g: Grid, block: Block) -> bool {
    first_blocked_row(g, block, 0) == template_rows(block)
}

/// The grid with the occupied template cells strictly before row-major
/// position `(fi, fj)` stamped on, and everything else unchanged.
pub open spec fn spawned_upto(g: Grid, block: Block, fi: int, fj: int) -> Grid {
    let t = block.spec_occupied();
    let sc = spawn_col(block);
    Seq::new(
        g.len(),
        |r: int|
            Seq::new(
                g[r].len(),
                |c: int|
                    if 0 <= r < template_rows(block) && sc <= c < sc + template_cols(block)
                        && t[r][c - sc].spec_is_falling() && (r < fi || (r == fi && c - sc
                        < fj)) {
                        t[r][c - sc]
                    } else {
                        g[r][c]
                    },
            ),
    )
}

/// The grid the spawner leaves behind: the whole template when every
/// destination is empty, else everything strictly before the first blocked
/// destination in overwrite order.
pub open spec fn spawn_result(g: Grid, block: Block) -> Grid {
    let fi = first_blocked_row(g, block, 0);
    if fi == template_rows(block) {
        spawned_upto(g, block, fi, 0)
    } else {
        spawned_upto(g, block, fi, first_blocked_in_row(g, block, fi, 0))
    }
}

/// `first_blocked_in_row` finds a blocked cell, and none lies before it.
pub proof fn lemma_first_blocked_in_row(g: Grid, block: Block, i: int, j: int)
    requires
        0 <= j <= template_cols(block),
    ensures
        j <= first_blocked_in_row(g, block, i, j) <= template_cols(block),
        first_blocked_in_row(g, block, i, j) < template_cols(block) ==> spawn_blocked_at(
            g,
            block,
            i,
            first_blocked_in_row(g, block, i, j),
        ),
        forall|jj: int|
            j <= jj < first_blocked_in_row(g, block, i, j) ==> !spawn_blocked_at(g, block, i, jj),
    decreases template_cols(block) - j,
{
    if j < template_cols(block) && !spawn_blocked_at(g, block, i, j) {
        lemma_first_blocked_in_row(g, block, i, j + 1);
    }
}

/// `first_blocked_row` finds a row with a blocked occupied cell, and no
/// earlier row has one.
pub proof fn lemma_first_blocked_row(g: Grid, block: Block, i: int)
    requires
        0 <= i <= template_rows(block),
    ensures
        i <= first_blocked_row(g, block, i) <= template_rows(block),
        first_blocked_row(g, block, i) < template_rows(block) ==> first_blocked_in_row(
            g,
            block,
            first_blocked_row(g, block, i),
            0,
        ) < template_cols(block),
        forall|ii: int|
            i <= ii < first_blocked_row(g, block, i) ==> first_blocked_in_row(g, block, ii, 0)
                == template_cols(block),
    decreases template_rows(block) - i,
{
    if i < template_rows(block) {
        lemma_first_blocked_in_row(g, block, i, 0);
        if !(first_blocked_in_row(g, block, i, 0) < template_cols(block)) {
            lemma_first_blocked_row(g, block, i + 1);
        }
    }
}

/// The template fits on the board at its spawn position, for every kind.
pub proof fn lemma_template_on_board(block: Block)
    ensures
        1 <= template_rows(block) <= BOARD_ROWS,
        1 <= template_cols(block) <= BOARD_COLS,
        0 <= spawn_col(block),
        spawn_col(block) + template_cols(block) <= BOARD_COLS,
        forall|r: int|
            0 <= r < template_rows(block) ==> (#[trigger] block.spec_occupied()[r]).len()
                == template_cols(block),
{
}

/// Stamp the kind's occupied template cells onto the board, one by one in
/// row-major order, stopping at the first destination that is not empty.
/// Reports whether the whole template landed; a false report is the
/// game-over signal.
#[verifier::rlimit(100)]
pub fn spawn_block(board: &mut Board, block: Block) -> (ok: bool)
    requires
        old(board).well_formed(),
    ensures
        final(board).well_formed(),
        ok == spawn_ok(old(board)@, block),
        final(board)@ == spawn_result(old(board)@, block),
{
    let ghost g0: Grid = board@;
    let t = block.get_occupied();
    proof {
        lemma_template_on_board(block);
        assert(t@.len() == template_rows(block));
    }
    let trows = t.len();
    let sc = BOARD_COLS / 2 - t[0].len() / 2;
    proof {
        assert(t@[0]@.len() == template_cols(block));
        assert(sc as int == spawn_col(block));
        assert(board@ =~~= spawned_upto(g0, block, 0, 0));
    }
    for i in 0..trows
        invariant
            board.well_formed(),
            grid_wf(g0),
            g0 == old(board)@,
            t@.len() == template_rows(block),
            forall|r: int|
                0 <= r < template_rows(block) ==> (#[trigger] t@[r])@ == block.spec_occupied()[r],
            trows == template_rows(block),
            sc == spawn_col(block),
            1 <= template_cols(block) <= BOARD_COLS,
            sc + template_cols(block) <= BOARD_COLS,
            template_rows(block) <= BOARD_ROWS,
            board@ == spawned_upto(g0, block, i as int, 0),
            forall|ii: int|
                0 <= ii < i ==> first_blocked_in_row(g0, block, ii, 0) == template_cols(block),
    {
        let tcols = t[i].len();
        proof {
            lemma_template_on_board(block);
            assert(t@[i as int]@ == block.spec_occupied()[i as int]);
            assert(tcols == template_cols(block));
        }
        for j in 0..tcols
            invariant
                board.well_formed(),
                grid_wf(g0),
                g0 == old(board)@,
                t@.len() == template_rows(block),
                forall|r: int|
                    0 <= r < template_rows(block) ==> (#[trigger] t@[r])@
                        == block.spec_occupied()[r],
                trows == template_rows(block),
                i < trows,
                sc == spawn_col(block),
                tcols == template_cols(block),
                1 <= template_cols(block) <= BOARD_COLS,
                sc + template_cols(block) <= BOARD_COLS,
                template_rows(block) <= BOARD_ROWS,
                board@ == spawned_upto(g0, block, i as int, j as int),
                forall|ii: int|
                    0 <= ii < i ==> first_blocked_in_row(g0, block, ii, 0) == template_cols(
                        block,
                    ),
                forall|jj: int| 0 <= jj < j ==> !spawn_blocked_at(g0, block, i as int, jj),
        {
            let dest_c = sc + j;
            let v = t[i][j];
            if v.is_falling() {
                proof {
                    assert(board@[i as int][dest_c as int] == g0[i as int][dest_c as int]);
                }
                if !matches!(board.get(i, dest_c), BoardBlockState::Empty) {
                    proof {
                        lemma_template_on_board(block);
                        assert(spawn_blocked_at(g0, block, i as int, j as int));
                        lemma_first_blocked_in_row(g0, block, i as int, 0);
                        assert(first_blocked_in_row(g0, block, i as int, 0) == j as int);
                        lemma_first_blocked_row(g0, block, 0);
                        assert(first_blocked_row(g0, block, 0) == i as int);
                        assert(!spawn_ok(g0, block));
                        assert(board@ == spawn_result(g0, block));
                    }
                    return false;
                }
                board.set(i, dest_c, v);
            }
            proof {
                assert(board@ =~~= spawned_upto(g0, block, i as int, j + 1));
            }
        }
        proof {
            lemma_first_blocked_in_row(g0, block, i as int, 0);
            assert(first_blocked_in_row(g0, block, i as int, 0) == template_cols(block));
            assert(board@ =~~= spawned_upto(g0, block, i + 1, 0));
        }
    }
    proof {
        lemma_first_blocked_row(g0, block, 0);
        assert(first_blocked_row(g0, block, 0) == template_rows(block));
        assert(spawn_ok(g0, block));
        assert(board@ == spawn_result(g0, block));
    }
    true
}

/// Every cell of a kind's template is empty or falls with that kind.
pub proof fn lemma_template_cells(k: Block)
    ensures
        forall|i: int, j: int|
            0 <= i < template_rows(k) && 0 <= j < template_cols(k) ==> (
            #[trigger] k.spec_occupied()[i][j] == (BoardBlockState::Empty)
                || k.spec_occupied()[i][j] == (BoardBlockState::Falling { block_type: k })),
{
}

/// A spawn onto a board without falling cells leaves only cells of the
/// spawned kind falling.
pub proof fn lemma_spawn_uniform(g: Grid, k: Block)
    requires
        grid_wf(g),
        !has_falling(g),
    ensures
        crate::board::falling_uniform(spawn_result(g, k), k),
{
    lemma_template_on_board(k);
    lemma_template_cells(k);
    let g1 = spawn_result(g, k);
    let sc = spawn_col(k);
    assert forall|r: int, c: int| #[trigger] crate::board::falling_at(g1, r, c) implies g1[r][c]
        == (BoardBlockState::Falling { block_type: k }) by {
        let fi = first_blocked_row(g, k, 0);
        let fj = if fi == template_rows(k) {
            0
        } else {
            first_blocked_in_row(g, k, fi, 0)
        };
        if 0 <= r < template_rows(k) && sc <= c < sc + template_cols(k)
            && k.spec_occupied()[r][c - sc].spec_is_falling() && (r < fi || (r == fi && c - sc
            < fj)) {
            assert(g1[r][c] == k.spec_occupied()[r][c - sc]);
        } else {
            assert(g1[r][c] == g[r][c]);
            assert(!crate::board::falling_at(g, r, c));
        }
    }
}

/// What the spawner reports for a frame.
#[derive(Debug, Clone, Copy, PartialEq, Eq, Structural)]
pub enum SpawnOutcome {
    /// A piece is still falling; nothing was spawned.
    Skipped,
    /// The next piece entered the board in full.
    Spawned,
    /// A destination cell was occupied: the game is over.
    GameOver,
}

/// Spawn the next piece if no piece is falling: pop the preview queue's
/// head, refill its tail with a fresh random draw, and stamp the popped
/// kind's template onto the board. A blocked destination stops the spawn
/// and reports the game over.
pub fn block_spawner<const T: usize>(
    board: &mut Board,
    preview: &mut CurrentBlockWithPreview<T>,
) -> (outcome: SpawnOutcome)
    requires
        old(board).well_formed(),
        old(preview).well_formed(),
        T >= 1,
    ensures
        final(board).well_formed(),
        final(preview).well_formed(),
        has_falling(old(board)@) ==> outcome == (SpawnOutcome::Skipped) && final(board)@ == old(
            board,
        )@ && *final(preview) == *old(preview),
        !has_falling(old(board)@) ==> {
            let k = old(preview).preview@[0];
            &&& final(preview).preview@.subrange(0, T as int - 1) == old(
                preview,
            ).preview@.subrange(1, T as int)
            &&& final(board)@ == spawn_result(old(board)@, k)
            &&& outcome == (if spawn_ok(old(board)@, k) {
                SpawnOutcome::Spawned
            } else {
                SpawnOutcome::GameOver
            })
        },
{
    if has_falling_piece(board) {
        return SpawnOutcome::Skipped;
    }
    let block = preview.get_and_generate_new_random();
    if spawn_block(board, block) {
        SpawnOutcome::Spawned
    } else {
        SpawnOutcome::GameOver
    }
}

} // verus!
