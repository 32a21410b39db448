use std::collections::HashMap;

use koch::analyzer::analyzer::{
    analyzer_fen_command, AiChatMessageRole, AnalyzerController, EngineCommand, EngineOption,
    LocalMessageRole,
};
use koch::analyzer::navigation::get_board_at_index;
use koch::analyzer::session::option_request;
use koch::database::pgn::{metadata_to_pgn, parse_game_result};
use koch::database::pgn_reader::{
    kept_pieces, move_records, moves_from_records, nag_numbers, normalize_pgn, parse_pgn_string,
    read_header, stamp_values, tokens_of_text, trimmed_texts,
};
use koch::engine::board::{Board, GameResult};
use koch::engine::piece::PieceType;
use koch::etc::DEFAULT_FEN;
use koch::server::server::{EvalKind, PvLineData, PvObject, Settings};

const GAME: &str = "[Event \"Casual\"]\n[White \"Ann\"]\n[Black \"Bob\"]\n[WhiteElo \"1500\"]\n[Result \"1-0\"]\n\n1. e4 {[%clk 0:05:00]} e5 {[%clk 0:04:59]} 2. Nf3 Nc6 3. Bb5 a6 1-0\n";

#[test]
fn normalize_removes_black_move_numbers() {
    assert_eq!(normalize_pgn("1. e4 1... e5 2. Nf3".to_string()), "1. e4  e5 2. Nf3");
}

#[test]
fn parse_reads_tags_and_moves() {
    let m = parse_pgn_string(GAME.to_string());
    assert_eq!(m.event, Some("Casual".to_string()));
    assert_eq!(m.white_player_name, "Ann");
    assert_eq!(m.black_player_name, "Bob");
    assert_eq!(m.white_player_elo, 1500);
    assert_eq!(m.result, GameResult::WhiteWin);
    // the result token is read as a last move and dropped
    let sans: Vec<&str> = m.move_list.iter().map(|mv| mv.san.as_str()).collect();
    assert_eq!(sans, vec!["e4", "e5", "Nf3", "Nc6", "Bb5", "a6"]);
    let ucis: Vec<&str> = m.move_list.iter().map(|mv| mv.uci.as_str()).collect();
    assert_eq!(ucis, vec!["e2e4", "e7e5", "g1f3", "b8c6", "f1b5", "a7a6"]);
    assert_eq!(m.move_list[0].move_number, 1);
    assert_eq!(m.move_list[5].move_number, 6);
    assert_eq!(m.move_list[0].clock, Some("0:05:00".to_string()));
    assert_eq!(m.move_list[1].clock, Some("0:04:59".to_string()));
    assert_eq!(m.move_list[2].clock, None);
    assert!(!m.move_list[2].is_capture);
}

#[test]
fn parse_reads_captures_promotions_and_glyphs() {
    let pgn = "1. e4 d5 2. exd5 $1 Qxd5 *";
    let m = parse_pgn_string(pgn.to_string());
    assert_eq!(m.move_list.len(), 4);
    assert!(m.move_list[2].is_capture);
    assert_eq!(m.move_list[2].uci, "e4d5");
    // a glyph belongs to the move at its place among the move number's moves
    assert_eq!(m.move_list[2].nag, Some(1));
    assert_eq!(m.move_list[3].nag, None);
    assert_eq!(m.move_list[3].uci, "d8d5");
    let promo = parse_pgn_string("1. a8=Q b1=N *".to_string());
    assert_eq!(promo.move_list[0].promotion, Some(PieceType::Queen));
    assert_eq!(promo.move_list[1].promotion, Some(PieceType::Knight));
    // neither move is legal from the start, so no UCI is found
    assert_eq!(promo.move_list[0].uci, "");
}

#[test]
fn pgn_written_is_read_back() {
    let m = parse_pgn_string(GAME.to_string());
    let written = metadata_to_pgn(&m);
    let again = parse_pgn_string(written);
    assert_eq!(again.white_player_name, "Ann");
    assert_eq!(again.result, GameResult::WhiteWin);
    let sans: Vec<&str> = again.move_list.iter().map(|mv| mv.san.as_str()).collect();
    assert_eq!(sans, vec!["e4", "e5", "Nf3", "Nc6", "Bb5", "a6"]);
}

#[test]
fn results_read_back_from_their_tokens() {
    for r in [GameResult::WhiteWin, GameResult::BlackWin, GameResult::Draw, GameResult::Unfinished] {
        assert_eq!(parse_game_result(&r.to_string()), r);
    }
    assert_eq!(GameResult::from("nonsense"), GameResult::Unfinished);
}

#[test]
fn roles_read_back_from_their_names() {
    for r in [
        AiChatMessageRole::System,
        AiChatMessageRole::User,
        AiChatMessageRole::Assistant,
        AiChatMessageRole::Function,
        AiChatMessageRole::Tool,
    ] {
        assert_eq!(AiChatMessageRole::from(&r.to_string()), r);
    }
    for r in [LocalMessageRole::User, LocalMessageRole::Assistent] {
        assert_eq!(LocalMessageRole::from(&r.to_string()), r);
    }
}

fn analyzed_game() -> AnalyzerController {
    let m = parse_pgn_string(GAME.to_string());
    let mut c = AnalyzerController::default();
    c.board.meta_data = m;
    c
}

#[test]
fn navigation_goes_forward_and_back() {
    let mut c = analyzed_game();
    let s = get_board_at_index(&mut c, 1).unwrap();
    assert_eq!(s.current_ply, 1);
    assert_eq!(c.current_ply, 1);
    assert_eq!(c.board_undo.len(), 2);
    assert_eq!(
        c.board.to_string(),
        "rnbqkbnr/pppp1ppp/8/4p3/4P3/8/PPPP1PPP/RNBQKBNR w KQkq e6 0 2"
    );
    let s = get_board_at_index(&mut c, 3).unwrap();
    assert_eq!(s.current_ply, 3);
    assert_eq!(c.board_undo.len(), 4);
    get_board_at_index(&mut c, 1).unwrap();
    assert_eq!(c.board_undo.len(), 2);
    assert_eq!(
        c.board.to_string(),
        "rnbqkbnr/pppp1ppp/8/4p3/4P3/8/PPPP1PPP/RNBQKBNR w KQkq e6 0 2"
    );
    // the start position is shown without changing the controller
    let start = get_board_at_index(&mut c, -1).unwrap();
    assert_eq!(start.current_ply, -1);
    assert_eq!(c.current_ply, 1);
    assert!(get_board_at_index(&mut c, 99).is_none());
    assert!(get_board_at_index(&mut c, -2).is_none());
}

#[test]
fn analyzer_command_lists_the_moves_played() {
    let m = parse_pgn_string(GAME.to_string());
    let (cmd, mult) = analyzer_fen_command(DEFAULT_FEN, &m.move_list, 1);
    assert_eq!(cmd, format!("position fen {}  moves e2e4 e7e5 ", DEFAULT_FEN));
    assert_eq!(mult, 1);
    let (cmd, mult) = analyzer_fen_command(DEFAULT_FEN, &m.move_list, 0);
    assert_eq!(cmd, format!("position fen {}  moves e2e4 ", DEFAULT_FEN));
    assert_eq!(mult, -1);
    let (cmd, mult) = analyzer_fen_command(DEFAULT_FEN, &m.move_list, -1);
    assert_eq!(cmd, format!("position fen {} ", DEFAULT_FEN));
    assert_eq!(mult, 1);
}

#[test]
fn variations_as_text() {
    let mut lines = HashMap::new();
    lines.insert(2u8, PvLineData { moves: "d2d4".to_string(), eval_kind: EvalKind::Mate, eval_value: -3 });
    lines.insert(1u8, PvLineData { moves: "e2e4 e7e5".to_string(), eval_kind: EvalKind::Centipawn, eval_value: 31 });
    let p = PvObject { fen: String::new(), depth: 10, lines };
    assert_eq!(
        p.to_string(),
        "Engine Lines:\n  1. e2e4 e7e5 | Eval:  (cp 31)\n  2. d2d4 | Eval: (mate -3)\n"
    );
    assert_eq!(PvObject::default().to_string(), "Engine Lines:\n  <no lines>\n");
    assert_eq!(p.best_first_move(), Some("e2e4".to_string()));
}

#[test]
fn option_requests_read_numbers() {
    let r = option_request(EngineOption::Hash, "256").unwrap();
    assert!(matches!(r.0, EngineCommand::SetHashSize(256)));
    assert_eq!(r.1, "HashSize");
    let r = option_request(EngineOption::MultiPv, "+3").unwrap();
    assert!(matches!(r.0, EngineCommand::SetMultiPv(3)));
    assert_eq!(r.1, "MultiPV");
    assert!(option_request(EngineOption::Threads, "four").is_none());
    assert!(option_request(EngineOption::Threads, "-1").is_none());
}

#[test]
fn settings_update_and_read() {
    let mut s = Settings { corrupted: false, map: Vec::new() };
    s.update("Threads".to_string(), "2".to_string());
    s.update("MultiPV".to_string(), "3".to_string());
    s.update("Threads".to_string(), "8".to_string());
    assert_eq!(s.get("Threads"), Some("8".to_string()));
    assert_eq!(s.get("Hash"), None);
    assert_eq!(s.map.len(), 2);
    assert_eq!(s.config_text(), "MultiPV=3\nThreads=8");
    s.update("HashSize".to_string(), "64".to_string());
    assert_eq!(koch::server::server::get_analyzer_settings(&s), Some((3, 8, 64)));
}

#[test]
fn undo_restores_the_position() {
    let mut b = Board::default();
    let before = b.to_string();
    let undo = b.move_piece_with_undo((6, 4), (4, 4), None).unwrap();
    assert_ne!(b.to_string(), before);
    b.apply_undo(undo).unwrap();
    assert_eq!(b.to_string(), before);
}

#[test]
fn uci_encodes_what_it_decodes() {
    let b = Board::default();
    for text in ["e2e4", "g1f3", "a7a8q", "h2h1n"] {
        let (from, to, promotion) = b.decode_uci_move(text).unwrap();
        assert_eq!(b.encode_uci_move(from, to, promotion), text);
    }
}

#[test]
fn assistant_context_without_variations() {
    let c = AnalyzerController::default();
    let text = koch::analyzer::assistant::board_context(&c, "What now?");
    assert!(text.starts_with("###Board Context###\nPlayer color: White\nBoard in FEN: rnbqkbnr/pppppppp/8/8/8/8/PPPPPPPP/RNBQKBNR w KQkq - 0 1\nBoard in viusal format\n 8 r n b q k b n r\n"));
    assert!(text.ends_with(" \n###Engine evals##\n No engine line data  \nBest Move: No best move provided by engine\n Main Threat: No Threat\n ###User Prompt###\n What now?"));
}

#[test]
fn assistant_exchange_is_recorded() {
    let mut chat = koch::analyzer::analyzer::LocalChat::default();
    koch::analyzer::assistant::record_exchange(
        &mut chat,
        "Why?".to_string(),
        "Because.".to_string(),
        4,
        "t1".to_string(),
        "t2".to_string(),
    );
    assert_eq!(chat.chat_messages.len(), 2);
    assert_eq!(chat.chat_messages[0].role, LocalMessageRole::User);
    assert_eq!(chat.chat_messages[0].content, "Why?");
    assert_eq!(chat.chat_messages[1].role, LocalMessageRole::Assistent);
    assert_eq!(chat.chat_messages[1].move_index, 4);
    assert_eq!(chat.chat_messages[1].sent_at, "t2");
}

#[test]
fn new_game_takes_ratings_from_the_settings() {
    let settings = Settings {
        corrupted: false,
        map: vec![("PlayerElo".to_string(), "1200".to_string()), ("StockfishElo".to_string(), "x".to_string())],
    };
    let (g, engine_elo) = koch::server::commands::new_game(&settings);
    assert_eq!(g.white_elo, 1200);
    assert_eq!(g.black_elo, 500);
    assert_eq!(engine_elo, 500);
    let (g, engine_elo) = koch::server::commands::new_game(&Settings { corrupted: false, map: vec![("StockfishElo".to_string(), "2000".to_string())] });
    assert_eq!(g.white_elo, 500);
    assert_eq!(g.black_elo, 2000);
    assert_eq!(engine_elo, 2000);
}

#[test]
fn game_record_fills_defaults() {
    let mut g = koch::game::controller::GameController::new();
    g.white_elo = 1300;
    let m = koch::server::commands::game_record(g, "2024-01-02".to_string());
    assert_eq!(m.date, "2024-01-02");
    assert_eq!(m.white_player_elo, 1300);
    assert_eq!(m.black_player_elo, 500);
    assert_eq!(m.result, GameResult::Unfinished);
    assert_eq!(m.termination, koch::game::controller::TerminationReason::Timeout);
    assert_eq!(m.white_player_name, "Petru");
}

#[test]
fn share_data_gives_fen_and_pgn() {
    let g = koch::game::controller::GameController::new();
    let (fen, pgn) = koch::server::commands::get_share_data(&g);
    assert_eq!(fen, DEFAULT_FEN);
    // the names are the controller's; the board's record has none
    assert!(pgn.contains("[White \"\"]\n"));
    assert!(pgn.ends_with("\n*\n"));
}

#[test]
fn fetched_game_starts_at_its_position() {
    let m = parse_pgn_string(GAME.to_string());
    let chat = koch::analyzer::analyzer::LocalChat::default();
    let a = koch::server::commands::fetch_game(7, m, chat);
    assert_eq!(a.game_id, 7);
    assert_eq!(a.current_ply, -1);
    assert_eq!(a.board.to_string(), DEFAULT_FEN);
    assert_eq!(a.board.meta_data.move_list.len(), 6);
    let d = koch::server::commands::fetch_default_game();
    assert_eq!(d.board.to_string(), DEFAULT_FEN);
    assert!(!d.board.move_cache.is_empty());
}

#[test]
fn chessdotcom_address_and_user() {
    assert_eq!(
        koch::server::commands::chessdotcom_games_url("petru", 2025),
        "https://api.chess.com/pub/player/petru/games/2025/09"
    );
    let none = Settings { corrupted: false, map: Vec::new() };
    assert_eq!(koch::server::commands::chessdotcom_user(&none), Err("nu chieie in setari".to_string()));
    let some = Settings { corrupted: false, map: vec![("chessdotcom_user".to_string(), "petru".to_string())] };
    assert_eq!(koch::server::commands::chessdotcom_user(&some), Ok("petru".to_string()));
}

#[test]
fn threat_request_names_the_side_to_move() {
    let c = AnalyzerController::default();
    let cmd = koch::analyzer::session::threat_command(&c);
    assert!(matches!(cmd, EngineCommand::GetThreat(ref f, 1) if f == DEFAULT_FEN));
}

#[test]
fn pgn_pieces_are_trimmed_and_empty_ones_dropped() {
    let v = kept_pieces(&vec![" e4 e5 ".to_string(), "   ".to_string(), "Nf3 ".to_string()]);
    assert_eq!(v, vec!["e4 e5".to_string(), "Nf3".to_string()]);
}

#[test]
fn pgn_groups_read_as_texts_numbers_and_stamps() {
    assert_eq!(trimmed_texts(&vec![Some(" 0:10 ".to_string()), None]), vec!["0:10".to_string(), String::new()]);
    assert_eq!(nag_numbers(&vec![Some("3".to_string()), Some("x".to_string()), None, Some("14".to_string())]), vec![3, 14]);
    assert_eq!(stamp_values(&vec!["12".to_string(), "x".to_string()]), vec![12, 0]);
}

#[test]
fn pgn_records_play_from_the_start() {
    let toks = tokens_of_text("  e4   e5 ");
    assert_eq!(toks, vec![vec!['e', '4'], vec!['e', '5']]);
    let recs = move_records(&toks, &vec!["good".to_string()], &vec![1]);
    assert_eq!(recs, vec![("e4".to_string(), Some("good".to_string()), Some(1)), ("e5".to_string(), None, None)]);
    let moves = moves_from_records(&recs, &vec!["0:05:00".to_string()], &vec![]);
    assert_eq!(moves.len(), 2);
    assert_eq!(moves[0].uci, "e2e4");
    assert_eq!(moves[1].uci, "e7e5");
    assert_eq!(moves[0].move_number, 1);
    assert_eq!(moves[0].clock.as_deref(), Some("0:05:00"));
    assert_eq!(moves[0].annotation.as_deref(), Some("good"));
    assert_eq!(moves[1].clock, None);
}

#[test]
fn pgn_header_sets_tags_and_keeps_the_move_text() {
    let mut m = Board::default().meta_data;
    let text = read_header("[White \"Ann\"]\n[WhiteElo \"1500\"]\n1. e4 e5", &mut m);
    assert_eq!(m.white_player_name, "Ann");
    assert_eq!(m.white_player_elo, 1500);
    assert!(text.contains("1. e4 e5"));
}
