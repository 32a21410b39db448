use std::sync::mpsc::Receiver;
use vstd::prelude::*;

verus! {

/// `std::sync::mpsc::Receiver`, the receiving end of a channel; Verus sees
/// nothing inside it.
#[verifier::external_type_specification]
#[verifier::external_body]
#[verifier::reject_recursive_types(T)]
pub struct ExReceiver<T>(Receiver<T>);

/// The popups the desktop board can show.
#[derive(Clone, Debug)]
pub enum PopupType {
    GameLostPopup(String),
    SavingGamePopup,
}

/// The arrangement of the desktop board's screen.
#[derive(Clone, Copy, Debug, PartialEq, Eq, Structural)]
pub enum BoardLayout {
    SandboxLayout,
    VersusLayout,
    AnalyzerLayout,
}

/// Whether a game is being saved, and the channel that reports when it is.
pub struct UiController {
    pub saving_game: bool,
    pub save_game_rx: Option<Receiver<u8>>,
}

impl UiController {
    /// Not saving, with no channel.
    pub fn default() -> (c: UiController)
        ensures
            !c.saving_game,
            c.save_game_rx is None,
    {
        UiController { saving_game: false, save_game_rx: None }
    }
}

} // verus!
