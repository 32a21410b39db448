use vstd::prelude::*;

use crate::engine::piece::PieceColor;

verus! {

/// The standard starting position.
pub const DEFAULT_FEN: &'static str = "rnbqkbnr/pppppppp/8/8/8/8/PPPPPPPP/RNBQKBNR w KQkq - 0 1";

/// The colour shown at the bottom of the board by default.
pub const DEFAULT_STARTING: PieceColor = PieceColor::White;

/// The name of the local player.
pub const PLAYER_NAME: &'static str = "Koshmar";

/// The strength given to the engine opponent.
pub const STOCKFISH_ELO: u32 = 2500;

} // verus!
