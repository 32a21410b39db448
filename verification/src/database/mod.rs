pub mod pgn;
pub mod pgn_reader;
pub mod records;
pub mod pgn_laws;
