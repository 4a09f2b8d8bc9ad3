//! The piece catalog: per-kind occupancy templates in canonical spawn pose,
//! and per-kind colour and letter.

use vstd::prelude::*;

use crate::board::{Block, BoardBlockState};

verus! {

/// A colour, one per piece kind; rendering maps these to real colours.
#[derive(Debug, Clone, Copy, PartialEq, Eq, Structural)]
pub enum BlockColor {
    Purple,
    Blue,
    Orange,
    Cyan,
    Yellow,
    Red,
    Green,
}

impl Block {
    /// The colour of this piece kind.
    pub open spec fn spec_color(self) -> BlockColor {
        match self {
            Block::T => BlockColor::Purple,
            Block::J => BlockColor::Blue,
            Block::L => BlockColor::Orange,
            Block::I => BlockColor::Cyan,
            Block::O => BlockColor::Yellow,
            Block::S => BlockColor::Red,
            Block::Z => BlockColor::Green,
        }
    }

    #[verifier::when_used_as_spec(spec_color)]
    pub fn get_color(self) -> (r: BlockColor)
        ensures
            r == self.spec_color(),
    {
        match self {
            Block::T => BlockColor::Purple,
            Block::J => BlockColor::Blue,
            Block::L => BlockColor::Orange,
            Block::I => BlockColor::Cyan,
            Block::O => BlockColor::Yellow,
            Block::S => BlockColor::Red,
            Block::Z => BlockColor::Green,
        }
    }

    /// The letter that names this piece kind.
    pub open spec fn spec_letter(self) -> char {
        match self {
            Block::T => 'T',
            Block::J => 'J',
            Block::L => 'L',
            Block::I => 'I',
            Block::O => 'O',
            Block::S => 'S',
            Block::Z => 'Z',
        }
    }

    #[verifier::when_used_as_spec(spec_letter)]
    pub fn letter(self) -> (r: char)
        ensures
            r == self.spec_letter(),
    {
        match self {
            Block::T => 'T',
            Block::J => 'J',
            Block::L => 'L',
            Block::I => 'I',
            Block::O => 'O',
            Block::S => 'S',
            Block::Z => 'Z',
        }
    }

    /// The side of the square window this piece rotates in.
    pub open spec fn spec_window(self) -> usize {
        if self == (Block::I) {
            4usize
        } else {
            3usize
        }
    }

    #[verifier::when_used_as_spec(spec_window)]
    pub fn window(self) -> (n: usize)
        ensures
            n == self.spec_window(),
    {
        if matches!(self, Block::I) {
            4
        } else {
            3
        }
    }

    /// The occupancy template of this kind in canonical spawn pose:
    /// a 3x3 pattern, 4x4 for I, with the occupied band starting in the
    /// top row.
    pub open spec fn spec_occupied(self) -> Seq<Seq<BoardBlockState>> {
        let e = BoardBlockState::Empty;
        let f = BoardBlockState::Falling { block_type: self };
        match self {
            Block::T => seq![seq![e, f, e], seq![f, f, f], seq![e, e, e]],
            Block::J => seq![seq![f, e, e], seq![f, f, f], seq![e, e, e]],
            Block::L => seq![seq![e, e, f], seq![f, f, f], seq![e, e, e]],
            Block::O => seq![seq![f, f, e], seq![f, f, e], seq![e, e, e]],
            Block::S => seq![seq![e, f, f], seq![f, f, e], seq![e, e, e]],
            Block::Z => seq![seq![f, f, e], seq![e, f, f], seq![e, e, e]],
            Block::I => seq![
                seq![f, f, f, f],
                seq![e, e, e, e],
                seq![e, e, e, e],
                seq![e, e, e, e],
            ],
        }
    }

    /// Build the occupancy template of this kind.
    pub fn get_occupied(self) -> (t: Vec<Vec<BoardBlockState>>)
        ensures
            Seq::new(t@.len(), |r: int| t@[r]@) == self.spec_occupied(),
    {
        let e = BoardBlockState::Empty;
        let f = BoardBlockState::Falling { block_type: self };
        let t: Vec<Vec<BoardBlockState>> = match self {
            Block::T => vec![vec![e, f, e], vec![f, f, f], vec![e, e, e]],
            Block::J => vec![vec![f, e, e], vec![f, f, f], vec![e, e, e]],
            Block::L => vec![vec![e, e, f], vec![f, f, f], vec![e, e, e]],
            Block::O => vec![vec![f, f, e], vec![f, f, e], vec![e, e, e]],
            Block::S => vec![vec![e, f, f], vec![f, f, e], vec![e, e, e]],
            Block::Z => vec![vec![f, f, e], vec![e, f, f], vec![e, e, e]],
            Block::I => vec![
                vec![f, f, f, f],
                vec![e, e, e, e],
                vec![e, e, e, e],
                vec![e, e, e, e],
            ],
        };
        proof {
            assert(Seq::new(t@.len(), |r: int| t@[r]@) =~~= self.spec_occupied());
        }
        t
    }
}

} // verus!
