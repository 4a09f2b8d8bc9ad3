//! The playing field: a fixed 20x10 grid of tri-state cells.
//!
//! Each cell is `Empty`, `Placed` (part of a piece that finished falling) or
//! `Falling` (part of the single piece under player control). The grid is the
//! only record of the active piece: its cells are exactly the `Falling` cells.

use vstd::prelude::*;

verus! {

/// Number of rows of the playing field.
pub const BOARD_ROWS: usize = 20;

/// Number of columns of the playing field.
pub const BOARD_COLS: usize = 10;

/// The seven piece kinds.
#[derive(Debug, Clone, Copy, PartialEq, Eq, Structural)]
pub enum Block {
    T,
    J,
    L,
    I,
    O,
    S,
    Z,
}

/// One cell of the board: empty, or occupied by a placed or a falling piece.
#[derive(Debug, Clone, Copy, PartialEq, Eq, Structural)]
pub enum BoardBlockState {
    Placed { block_type: Block },
    Falling { block_type: Block },
    Empty,
}

impl BoardBlockState {
    /// Whether the cell belongs to the piece currently under player control.
    pub open spec fn spec_is_falling(self) -> bool {
        matches!(self, BoardBlockState::Falling { .. })
    }

    /// Whether the cell belongs to a piece that has finished falling.
    pub open spec fn spec_is_placed(self) -> bool {
        matches!(self, BoardBlockState::Placed { .. })
    }

    #[verifier::when_used_as_spec(spec_is_falling)]
    pub fn is_falling(self) -> (r: bool)
        ensures
            r == self.spec_is_falling(),
    {
        matches!(self, BoardBlockState::Falling { .. })
    }

    #[verifier::when_used_as_spec(spec_is_placed)]
    pub fn is_placed(self) -> (r: bool)
        ensures
            r == self.spec_is_placed(),
    {
        matches!(self, BoardBlockState::Placed { .. })
    }
}

/// A cell is falling, placed, or empty, and never two of these at once.
pub proof fn lemma_cell_states_partition(c: BoardBlockState)
    ensures
        !(c.spec_is_falling() && c.spec_is_placed()),
        c.spec_is_falling() || c.spec_is_placed() || c == (BoardBlockState::Empty),
        c.spec_is_falling() ==> c != (BoardBlockState::Empty),
        c.spec_is_placed() ==> c != (BoardBlockState::Empty),
{
}

/// The life stage of a piece: still under player control, or finished.
#[derive(Debug, Clone, Copy, PartialEq, Eq, Structural)]
pub enum BlockState {
    Placed,
    Falling,
}

impl Default for BlockState {
    fn default() -> (s: BlockState)
        ensures
            s == (BlockState::Placed),
    {
        BlockState::Placed
    }
}

/// A grid of cells as it appears in specifications: a sequence of rows.
pub type Grid = Seq<Seq<BoardBlockState>>;

/// The grid has exactly `BOARD_ROWS` rows of `BOARD_COLS` cells each.
pub open spec fn grid_wf(g: Grid) -> bool {
    &&& g.len() == BOARD_ROWS
    &&& forall|r: int| 0 <= r < g.len() ==> (#[trigger] g[r]).len() == BOARD_COLS
}

/// Whether the position lies on the board.
pub open spec fn on_board(r: int, c: int) -> bool {
    0 <= r < BOARD_ROWS && 0 <= c < BOARD_COLS
}

/// Whether the cell at the given position holds part of the falling piece.
/// Positions off the board count as not falling.
pub open spec fn falling_at(g: Grid, r: int, c: int) -> bool {
    on_board(r, c) && g[r][c].spec_is_falling()
}

/// Whether the cell at the given position holds part of a placed piece.
/// Positions off the board count as not placed.
pub open spec fn placed_at(g: Grid, r: int, c: int) -> bool {
    on_board(r, c) && g[r][c].spec_is_placed()
}

/// All falling cells belong to one piece: each carries the kind `k`.
pub open spec fn falling_uniform(g: Grid, k: Block) -> bool {
    forall|r: int, c: int|
        #[trigger] falling_at(g, r, c) ==> g[r][c] == (BoardBlockState::Falling { block_type: k })
}

/// Whether any cell of the grid is falling: whether an active piece exists.
pub open spec fn has_falling(g: Grid) -> bool {
    exists|r: int, c: int| falling_at(g, r, c)
}

/// The grid of cells, row 0 at the top.
#[derive(Debug)]
pub struct Board {
    pub inner: Vec<Vec<BoardBlockState>>,
}

impl Board {
    /// The grid as a sequence of rows of cells.
    pub open spec fn view(&self) -> Grid {
        Seq::new(self.inner@.len(), |r: int| self.inner@[r]@)
    }

    /// The grid has exactly `BOARD_ROWS` rows of `BOARD_COLS` cells each.
    pub open spec fn well_formed(&self) -> bool {
        grid_wf(self@)
    }

    /// The cell at the given position.
    pub open spec fn cell(&self, r: int, c: int) -> BoardBlockState {
        self@[r][c]
    }

    /// Read one cell.
    pub fn get(&self, r: usize, c: usize) -> (v: BoardBlockState)
        requires
            self.well_formed(),
            r < BOARD_ROWS,
            c < BOARD_COLS,
        ensures
            v == self.cell(r as int, c as int),
    {
        self.inner[r][c]
    }

    /// Overwrite one cell.
    pub fn set(&mut self, r: usize, c: usize, v: BoardBlockState)
        requires
            old(self).well_formed(),
            r < BOARD_ROWS,
            c < BOARD_COLS,
        ensures
            final(self).well_formed(),
            final(self)@ == old(self)@.update(
                r as int,
                old(self)@[r as int].update(c as int, v),
            ),
    {
        proof {
            assert(self@[r as int] == self.inner@[r as int]@);
        }
        self.inner[r][c] = v;
        proof {
            assert(self@ =~~= old(self)@.update(r as int, old(self)@[r as int].update(c as int, v)));
        }
    }

    /// The stage of the active piece, read off the grid itself: falling
    /// while any falling cell exists, placed otherwise.
    pub fn block_state(&self) -> (s: BlockState)
        requires
            self.well_formed(),
        ensures
            s == (BlockState::Falling) <==> has_falling(self@),
    {
        if crate::gravity::has_falling_piece(self) {
            BlockState::Falling
        } else {
            BlockState::Placed
        }
    }

    /// Replace the whole grid.
    pub fn replace_grid(&mut self, g: Vec<Vec<BoardBlockState>>)
        ensures
            final(self)@ == Seq::new(g@.len(), |r: int| g@[r]@),
    {
        self.inner = g;
    }

    /// A fresh, fully empty board.
    pub fn new() -> (b: Board)
        ensures
            b.well_formed(),
            forall|r: int, c: int|
                0 <= r < BOARD_ROWS && 0 <= c < BOARD_COLS ==> b.cell(r, c) == (
                BoardBlockState::Empty),
    {
        let mut inner: Vec<Vec<BoardBlockState>> = Vec::new();
        for i in 0..BOARD_ROWS
            invariant
                inner@.len() == i,
                forall|r: int| 0 <= r < i ==> (#[trigger] inner@[r])@.len() == BOARD_COLS,
                forall|r: int, c: int|
                    0 <= r < i && 0 <= c < BOARD_COLS ==> inner@[r]@[c] == (
                    BoardBlockState::Empty),
        {
            let mut row: Vec<BoardBlockState> = Vec::new();
            for j in 0..BOARD_COLS
                invariant
                    row@.len() == j,
                    forall|c: int| 0 <= c < j ==> row@[c] == (BoardBlockState::Empty),
            {
                row.push(BoardBlockState::Empty);
            }
            inner.push(row);
        }
        Board { inner }
    }
}

impl Default for Board {
    /// A fresh, fully empty board.
    fn default() -> (b: Board)
        ensures
            b.well_formed(),
            forall|r: int, c: int|
                0 <= r < BOARD_ROWS && 0 <= c < BOARD_COLS ==> b.cell(r, c) == (
                BoardBlockState::Empty),
    {
        Board::new()
    }
}

} // verus!
