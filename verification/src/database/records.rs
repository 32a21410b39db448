use vstd::prelude::*;

use crate::engine::board::BoardMetaData;

verus! {

/// The PGN text of a stored game.
#[derive(Clone, Debug)]
pub struct PgnGame(pub String);

/// What a save writes: a whole game record, or the game in play.
pub enum SaveType {
    MetaDataSave { data: BoardMetaData },
    GameSave,
}

/// Asks for the last `n` games played; there is nothing stored to give yet,
/// so it does nothing.
pub fn get_last_n_game(_n: u32) {
}

} // verus!
