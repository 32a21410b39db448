use vstd::prelude::*;

use crate::engine::piece::PieceColor;

verus! {

/// An engine's evaluation: centipawns for the side named.
#[derive(Clone, Copy, Debug)]
pub struct Evaluation {
    pub centipawns: u32,
    pub color: PieceColor,
}

} // verus!
