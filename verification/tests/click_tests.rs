use koch::desktop::click::end_if_lost;
use koch::desktop::screens::PopupType;
use koch::desktop::edits::{pve_setup, sort_taken, EditError};
use koch::desktop::click::{board_click, ClickAction};
use koch::desktop::engine_link::GameMode;
use koch::engine::board::{Board, GamePhase};
use koch::engine::piece::{ChessPiece, PieceColor, PieceType};

#[test]
fn sandbox_click_selects_then_moves() {
    let mut b = Board::default();
    let mut sel: Option<ChessPiece> = None;
    let mut pend: Option<(u8, u8)> = None;
    b.rerender_move_cache();
    let act = board_click(&mut b, &mut sel, &mut pend, GameMode::Sandbox, false, PieceColor::White, (6, 4), true, false);
    assert_eq!(act, ClickAction::Idle);
    assert_eq!(sel.map(|p| p.position), Some((6, 4)));
    let act = board_click(&mut b, &mut sel, &mut pend, GameMode::Sandbox, false, PieceColor::White, (4, 4), true, false);
    assert_eq!(act, ClickAction::Moved);
    assert!(sel.is_none());
    assert_eq!(b.meta_data.move_list.len(), 1);
    assert_eq!(b.meta_data.move_list[0].uci, "e2e4");
    assert_eq!(b.to_string(), "rnbqkbnr/pppppppp/8/8/4P3/8/PPPP1PPP/RNBQKBNR b KQkq e4 0 1");
}

#[test]
fn click_on_a_piece_of_the_other_side_selects_nothing() {
    let mut b = Board::default();
    let mut sel: Option<ChessPiece> = None;
    let mut pend: Option<(u8, u8)> = None;
    b.rerender_move_cache();
    let act = board_click(&mut b, &mut sel, &mut pend, GameMode::Sandbox, false, PieceColor::White, (1, 4), true, false);
    assert_eq!(act, ClickAction::Idle);
    assert!(sel.is_none());
}

#[test]
fn secondary_click_deselects() {
    let mut b = Board::default();
    let mut sel: Option<ChessPiece> = None;
    let mut pend: Option<(u8, u8)> = None;
    b.rerender_move_cache();
    board_click(&mut b, &mut sel, &mut pend, GameMode::Sandbox, false, PieceColor::White, (6, 4), true, false);
    assert!(sel.is_some());
    let act = board_click(&mut b, &mut sel, &mut pend, GameMode::Sandbox, false, PieceColor::White, (3, 3), false, true);
    assert_eq!(act, ClickAction::Idle);
    assert!(sel.is_none());
    assert_eq!(b.meta_data.move_list.len(), 0);
}

#[test]
fn engine_game_ignores_clicks_off_turn_or_after_the_end() {
    let mut b = Board::default();
    let mut sel: Option<ChessPiece> = None;
    let mut pend: Option<(u8, u8)> = None;
    b.rerender_move_cache();
    let act = board_click(&mut b, &mut sel, &mut pend, GameMode::PvE, false, PieceColor::Black, (6, 4), true, false);
    assert_eq!(act, ClickAction::Idle);
    assert!(sel.is_none());
    let act = board_click(&mut b, &mut sel, &mut pend, GameMode::PvE, true, PieceColor::White, (6, 4), true, false);
    assert_eq!(act, ClickAction::Idle);
    assert!(sel.is_none());
}

#[test]
fn illegal_click_move_changes_nothing_on_the_board() {
    let mut b = Board::default();
    let mut sel: Option<ChessPiece> = None;
    let mut pend: Option<(u8, u8)> = None;
    b.rerender_move_cache();
    board_click(&mut b, &mut sel, &mut pend, GameMode::Sandbox, false, PieceColor::White, (6, 4), true, false);
    let act = board_click(&mut b, &mut sel, &mut pend, GameMode::Sandbox, false, PieceColor::White, (3, 4), true, false);
    assert_eq!(act, ClickAction::Idle);
    assert_eq!(b.meta_data.move_list.len(), 0);
    assert_eq!(b.to_string(), "rnbqkbnr/pppppppp/8/8/8/8/PPPPPPPP/RNBQKBNR w KQkq - 0 1");
}

#[test]
fn king_then_rook_castles_in_an_engine_game() {
    let mut b = Board::from(&"r3k2r/8/8/8/8/8/8/R3K2R w KQkq - 0 1".to_string());
    let mut sel: Option<ChessPiece> = None;
    let mut pend: Option<(u8, u8)> = None;
    b.rerender_move_cache();
    assert!(b.can_castle((7, 4), (7, 7)));
    board_click(&mut b, &mut sel, &mut pend, GameMode::PvE, false, PieceColor::White, (7, 4), true, false);
    let act = board_click(&mut b, &mut sel, &mut pend, GameMode::PvE, false, PieceColor::White, (7, 7), true, false);
    assert_eq!(act, ClickAction::Castled);
    assert!(sel.is_none());
    assert_eq!(b.turn, PieceColor::Black);
    assert_eq!(b.squares[7][6].map(|p| p.kind), Some(PieceType::King));
    assert_eq!(b.squares[7][5].map(|p| p.kind), Some(PieceType::Rook));
    assert!(!b.white_small_castle && !b.white_big_castle);
}

#[test]
fn blocked_castle_selects_the_rook() {
    let mut b = Board::default();
    assert!(!b.can_castle((7, 4), (7, 7)));
    let mut sel: Option<ChessPiece> = None;
    let mut pend: Option<(u8, u8)> = None;
    b.rerender_move_cache();
    board_click(&mut b, &mut sel, &mut pend, GameMode::Sandbox, false, PieceColor::White, (7, 4), true, false);
    let act = board_click(&mut b, &mut sel, &mut pend, GameMode::Sandbox, false, PieceColor::White, (7, 7), true, false);
    assert_eq!(act, ClickAction::Idle);
    assert_eq!(sel.map(|p| p.position), Some((7, 7)));
}

#[test]
fn can_castle_refuses_through_check() {
    let b = Board::from(&"4k3/8/8/8/8/8/8/R3K2R w KQ - 0 1".to_string());
    assert!(b.can_castle((7, 4), (7, 0)));
    let checked = Board::from(&"4r1k1/8/8/8/8/8/8/R3K2R w KQ - 0 1".to_string());
    assert!(!checked.can_castle((7, 4), (7, 7)));
}

#[test]
fn start_position_without_castling_rights_is_still_the_opening() {
    let mut b = Board::from(&"rnbqkbnr/pppppppp/8/8/8/8/PPPPPPPP/RNBQKBNR w - - 0 1".to_string());
    b.update_gamephase();
    assert_eq!(b.game_phase, GamePhase::Opening);
}

#[test]
fn bare_kings_are_an_endgame() {
    let mut b = Board::from(&"4k3/8/8/8/8/8/8/4K3 w - - 0 1".to_string());
    b.update_gamephase();
    assert_eq!(b.game_phase, GamePhase::EndGame);
}

#[test]
fn pawn_on_last_rank_leaves_a_promotion_pending_and_engine_game_waits() {
    let mut b = Board::from(&"7k/4P3/8/8/8/8/8/K7 w - - 0 1".to_string());
    b.rerender_move_cache();
    let mut sel: Option<ChessPiece> = None;
    let mut pend: Option<(u8, u8)> = None;
    board_click(&mut b, &mut sel, &mut pend, GameMode::Sandbox, false, PieceColor::White, (1, 4), true, false);
    let act = board_click(&mut b, &mut sel, &mut pend, GameMode::Sandbox, false, PieceColor::White, (0, 4), true, false);
    assert_eq!(act, ClickAction::Moved);
    assert_eq!(pend, Some((0, 4)));
    assert_eq!(b.squares[0][4].map(|p| p.kind), Some(PieceType::Pawn));
    b.change_turn();
    let act = board_click(&mut b, &mut sel, &mut pend, GameMode::PvE, false, PieceColor::White, (7, 0), true, false);
    assert_eq!(act, ClickAction::Idle);
    assert!(sel.is_none());
}

#[test]
fn desktop_move_needs_a_cached_move() {
    let mut b = Board::default();
    let mut sel: Option<ChessPiece> = None;
    let mut pend: Option<(u8, u8)> = None;
    board_click(&mut b, &mut sel, &mut pend, GameMode::Sandbox, false, PieceColor::White, (6, 4), true, false);
    let act = board_click(&mut b, &mut sel, &mut pend, GameMode::Sandbox, false, PieceColor::White, (4, 4), true, false);
    assert_eq!(act, ClickAction::Idle);
    assert!(sel.is_some());
}

#[test]
fn fools_mate_ends_the_engine_game() {
    let mut b = Board::from(&"rnb1kbnr/pppp1ppp/8/4p3/6Pq/5P2/PPPPP2P/RNBQKBNR w KQkq - 1 3".to_string());
    let mut over = false;
    let mut popup: Option<PopupType> = None;
    let mut mark: Option<(u8, u8)> = None;
    assert!(end_if_lost(&mut b, &mut over, &mut popup, &mut mark));
    assert!(over);
    assert!(matches!(popup, Some(PopupType::GameLostPopup(ref t)) if t == "ai perdut"));
    assert_eq!(mark, Some((7, 4)));
    let mut fresh = Board::default();
    let mut over2 = false;
    assert!(!end_if_lost(&mut fresh, &mut over2, &mut popup, &mut mark));
    assert!(!over2);
}

#[test]
fn direct_edits_move_and_take_back() {
    let mut b = Board::default();
    assert_eq!(b.do_move("e2e4"), Ok(()));
    assert_eq!(b.squares[4][4].map(|p| p.kind), Some(PieceType::Pawn));
    assert!(b.squares[6][4].is_none());
    assert_eq!(b.undo_move("e2e4"), Ok(()));
    assert!(b.squares[4][4].is_none());
    assert_eq!(b.squares[6][4].map(|p| p.kind), Some(PieceType::Pawn));
    assert_eq!(b.do_move("e3e4"), Err(EditError::NoPiece));
    assert_eq!(b.do_move("zz"), Err(EditError::BadUci));
    assert_eq!(b.do_move("a2a8q"), Ok(()));
    assert_eq!(b.squares[0][0].map(|p| p.kind), Some(PieceType::Queen));
    assert_eq!(b.undo_move("a2a8q"), Ok(()));
    assert_eq!(b.squares[6][0].map(|p| p.kind), Some(PieceType::Pawn));
}

#[test]
fn taken_pieces_sort_by_rank_keeping_order() {
    let mut v = vec![
        (PieceType::Queen, PieceColor::Black),
        (PieceType::Pawn, PieceColor::Black),
        (PieceType::Bishop, PieceColor::Black),
        (PieceType::Knight, PieceColor::White),
        (PieceType::Pawn, PieceColor::White),
        (PieceType::Rook, PieceColor::Black),
    ];
    sort_taken(&mut v);
    assert_eq!(
        v,
        vec![
            (PieceType::Pawn, PieceColor::Black),
            (PieceType::Pawn, PieceColor::White),
            (PieceType::Knight, PieceColor::White),
            (PieceType::Bishop, PieceColor::Black),
            (PieceType::Rook, PieceColor::Black),
            (PieceType::Queen, PieceColor::Black),
        ]
    );
}

#[test]
fn engine_game_setup_names_the_sides() {
    let mut b = Board::default();
    let mut pov = PieceColor::White;
    let enemy = pve_setup(&mut b.meta_data, &mut pov, PieceColor::Black);
    assert_eq!(enemy, PieceColor::White);
    assert_eq!(pov, PieceColor::Black);
    assert_eq!(b.meta_data.white_player_name, "Stockfish");
    assert_eq!(b.meta_data.white_player_elo, 2500);
    assert_eq!(b.meta_data.black_player_name, "Koshmar");
    assert_eq!(b.meta_data.black_player_elo, 800);
}
