use vstd::prelude::*;

verus! {

/// The kind of game the desktop board plays.
#[derive(Clone, Copy, Debug, PartialEq, Eq, Structural)]
pub enum GameMode {
    PvP,
    PvE,
    Sandbox,
}

/// Requests to the engine that plays against the user.
#[derive(Clone, Debug)]
pub enum StockfishCmd {
    NewGame,
    GoDepth(usize),
    Go(String),
    Stop,
    Eval,
}

/// What the playing engine answers.
#[derive(Clone, Debug)]
pub enum StockfishResult {
    Succes,
    Fail,
    Move(String),
}

/// A line of engine output: a usable one, or not.
#[derive(Clone, Debug)]
pub enum StockfishOutput {
    InvalidOutput,
    ValidOutput(String),
}

} // verus!
