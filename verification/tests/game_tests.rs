use koch::database::pgn::{parse_termination, termination_to_string};
use koch::engine::board::{GameResult, MoveStruct};
use koch::engine::piece::{PieceColor, PieceType};
use koch::game::controller::{
    format_duration, ChessClock, GameController, GameControllerMode, GameControllerState,
    TerminationReason,
};

#[test]
fn terminations_read_by_their_words() {
    assert_eq!(parse_termination("White won by CHECKMATE"), TerminationReason::Checkmate);
    assert_eq!(parse_termination("TIMEOUT"), TerminationReason::Timeout);
    assert_eq!(parse_termination("Game drawn by repetition"), TerminationReason::Draw);
    assert_eq!(parse_termination("Black resigns"), TerminationReason::Resignation);
    assert_eq!(parse_termination("abandoned"), TerminationReason::Resignation);
    // "mate" is looked for first, and "stalemate" holds it
    assert_eq!(parse_termination("Stalemate"), TerminationReason::Checkmate);
    assert_eq!(termination_to_string(&TerminationReason::Timeout), Some("timeout"));
}

#[test]
fn move_records_from_uci() {
    let m = MoveStruct::from("e7e8Q");
    assert_eq!(m.uci, "e7e8Q");
    assert_eq!(m.promotion, Some(PieceType::Queen));
    assert_eq!(MoveStruct::from("e2e4").promotion, None);
    assert_eq!(MoveStruct::from("e7e8x").promotion, None);
}

#[test]
fn clocks_by_mode() {
    let c = ChessClock::from(GameControllerMode::Blitz);
    assert_eq!(c.format(), (180_000, 180_000));
    assert_eq!(format_duration(1_999_999), 1);
    assert_eq!(format_duration(60_000_000_000), 60_000);
    assert!(!c.is_active);
}

#[test]
fn new_games_wait_for_their_start() {
    let g = GameController::new();
    assert_eq!(g.mode, GameControllerMode::Rapid);
    assert_eq!(g.state, GameControllerState::AwaitingStart);
    assert_eq!(g.white_elo, 500);
    let s = g.serialize();
    assert_eq!(s.player_card, "Petru (500)");
    assert_eq!(s.engine_card, "Stockfish (500)");
    assert_eq!(s.player_clock, 600_000);
}

#[test]
fn ending_a_game_records_its_result() {
    let mut g = GameController::new();
    let s = g.end_game(TerminationReason::Checkmate, PieceColor::Black);
    assert_eq!(g.result, Some(GameResult::WhiteWin));
    assert_eq!(s.termination_reason, Some(TerminationReason::Checkmate));
    // no rating change before both sides have moved
    assert_eq!(s.elo_gain, None);
    let mut g = GameController::new();
    g.start();
    g.update((6, 4), (4, 4), None);
    g.update((1, 4), (3, 4), None);
    let s = g.end_game(TerminationReason::Timeout, PieceColor::White);
    assert_eq!(g.result, Some(GameResult::BlackWin));
    // the side the player takes is drawn at the start
    let expected = if g.player == PieceColor::White { -10 } else { 10 };
    assert_eq!(s.elo_gain, Some(expected));
    let s = g.end_game(TerminationReason::Draw, PieceColor::White);
    assert_eq!(g.result, Some(GameResult::Draw));
    assert_eq!(s.elo_gain, Some(0));
}

#[test]
fn changing_mode_resets_the_clock() {
    let mut g = GameController::new();
    g.change_mode(GameControllerMode::Bullet);
    assert_eq!(g.mode, GameControllerMode::Bullet);
    assert_eq!(g.clock.format(), (60_000, 60_000));
}

#[test]
fn player_moves_are_recorded_once_started() {
    let mut g = GameController::new();
    g.start();
    let s = g.update((6, 4), (4, 4), None);
    assert_eq!(s.board.fen, "rnbqkbnr/pppppppp/8/8/4P3/8/PPPP1PPP/RNBQKBNR b KQkq e3 0 1");
    assert_eq!(g.board.meta_data.move_list.len(), 1);
    assert_eq!(g.board.meta_data.move_list[0].uci, "e2e4");
    assert!(!g.can_be_abandoned);
}

#[test]
fn a_timed_step_charges_the_mover() {
    let mut g = GameController::new();
    g.start();
    let now = std::time::Instant::now();
    g.update_with_elapsed((6, 4), (4, 4), None, 1_500_000_000, now);
    assert_eq!(g.clock.white_time_remaining, 598_500_000_000);
    assert_eq!(g.clock.black_time_remaining, 600_000_000_000);
    assert_eq!(g.board.meta_data.move_list.len(), 1);
    assert_eq!(g.board.meta_data.move_list[0].clock.as_deref(), Some("09:58:50"));
}
