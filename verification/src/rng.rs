//! The one randomness source: a uniform draw of a piece kind.

use vstd::prelude::*;

use crate::board::Block;

verus! {

/// Relies on rand::random_range: the sampled value lies in the given
/// range, which is not empty here.
#[verifier::external_body]
fn random_under(n: u8) -> (r: u8)
    requires
        n > 0,
    ensures
        r < n,
{
    rand::random_range(0..n)
}

/// The piece kind with the given index, in catalog order.
pub fn block_from_index(i: u8) -> (b: Block)
    requires
        i < 7,
    ensures
        b == (if i == 0 {
            Block::T
        } else if i == 1 {
            Block::J
        } else if i == 2 {
            Block::L
        } else if i == 3 {
            Block::I
        } else if i == 4 {
            Block::O
        } else if i == 5 {
            Block::S
        } else {
            Block::Z
        }),
{
    match i {
        0 => Block::T,
        1 => Block::J,
        2 => Block::L,
        3 => Block::I,
        4 => Block::O,
        5 => Block::S,
        _ => Block::Z,
    }
}

impl Block {
    /// An independent uniform draw over the seven kinds.
    pub fn generate_random() -> Block {
        block_from_index(random_under(7))
    }
}

} // verus!
