pub mod board;
pub mod capture;
pub mod fen;
pub mod move_gen;
pub mod piece;
pub mod quiet;
pub mod san;
pub mod san_reader;
pub mod serializer;
pub mod simulate;
pub mod uci;
pub mod start;
