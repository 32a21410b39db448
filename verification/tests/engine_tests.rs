use koch::analyzer::analyzer::{flip_fen_turn, translate_fen_for_model, EngineCommand};
use koch::analyzer::session::{startup_options, AnalysisSession, EngineAction};
use koch::engine::board::Board;
use koch::engine::piece::PieceType;
use koch::etc::DEFAULT_FEN;
use koch::server::server::{EvalKind, Settings};

#[test]
fn default_board_writes_the_start_fen() {
    let b = Board::default();
    assert_eq!(b.to_string(), DEFAULT_FEN);
}

#[test]
fn set_fen_reads_back_what_to_string_wrote() {
    let fen = "r1bq1rk1/pp3ppp/2n1pn2/2bp4/3P4/2NBPN2/PP3PPP/R1BQ1RK1 b - d3 4 12";
    let mut b = Board::default();
    b.set_fen(fen.to_string());
    let written = b.to_string();
    assert_eq!(written, fen);
    let mut again = Board::default();
    again.set_fen(written.clone());
    assert_eq!(again.to_string(), written);
}

#[test]
fn decode_uci_reads_squares() {
    let b = Board::default();
    let mv = b.decode_uci_move("e2e4");
    assert!(matches!(mv, Some(((6, 4), (4, 4), None))));
    let promo = b.decode_uci_move("a7a8q");
    assert!(matches!(promo, Some(((1, 0), (0, 0), Some(PieceType::Queen)))));
    assert!(b.decode_uci_move("e2").is_none());
}

#[test]
fn move_piece_plays_a_pawn_push() {
    let mut b = Board::default();
    let res = b.move_piece((6, 4), (4, 4), None);
    assert!(res.is_ok());
    assert_eq!(
        b.to_string(),
        "rnbqkbnr/pppppppp/8/8/4P3/8/PPPP1PPP/RNBQKBNR b KQkq e3 0 1"
    );
}

#[test]
fn san_to_uci_on_the_start_position() {
    let mut b = Board::default();
    assert_eq!(b.san_to_uci("e4").unwrap(), "e2e4");
    assert_eq!(b.san_to_uci("Nf3").unwrap(), "g1f3");
    assert_eq!(b.san_to_uci("O-O").unwrap(), "e1g1");
    assert!(b.san_to_uci("1-0").is_err());
}

#[test]
fn flip_fen_turn_switches_the_side_to_move() {
    assert_eq!(flip_fen_turn(DEFAULT_FEN), "rnbqkbnr/pppppppp/8/8/8/8/PPPPPPPP/RNBQKBNR b KQkq - 0 1");
    assert_eq!(flip_fen_turn("8/8/8/8/8/8/8/8  b - - 0 1"), "8/8/8/8/8/8/8/8 w - - 0 1");
}

#[test]
fn model_drawing_of_the_start_position() {
    let drawing = translate_fen_for_model(DEFAULT_FEN);
    let lines: Vec<&str> = drawing.lines().collect();
    assert_eq!(lines.len(), 9);
    assert_eq!(lines[0], "8 r n b q k b n r");
    assert_eq!(lines[3], "5 . . . . . . . .");
    assert_eq!(lines[8], "  a b c d e f g h ");
}

#[test]
fn session_set_and_go_stops_then_searches() {
    let mut s = AnalysisSession::new();
    s.search_sent(true);
    assert!(s.is_searching);
    let acts = s.handle_command(EngineCommand::SetAndGo("position fen x".to_string(), -1));
    assert_eq!(acts.len(), 6);
    assert!(matches!(acts[0], EngineAction::StopSearch));
    assert!(matches!(&acts[2], EngineAction::Send(t) if t == "position fen x"));
    assert!(matches!(&acts[5], EngineAction::Go(t) if t == "go depth 40 movetime 20000"));
    assert!(!s.is_searching);
    assert_eq!(s.color_multiplier, -1);
    assert_eq!(s.current_fen, "position fen x");
}

#[test]
fn session_reads_a_variation_line() {
    let mut s = AnalysisSession::new();
    s.handle_command(EngineCommand::SetAndGo("f".to_string(), -1));
    let line = "info depth 12 seldepth 20 multipv 2 score cp 35 nodes 100 pv e2e4 e7e5 g1f3";
    let acts = s.handle_engine_line(line);
    assert_eq!(acts.len(), 1);
    assert!(matches!(acts[0], EngineAction::RecordPv));
    assert_eq!(s.current_pv.depth, 12);
    let l = s.current_pv.lines.get(&2).unwrap();
    assert_eq!(l.moves, "e2e4 e7e5 g1f3");
    assert_eq!(l.eval_kind, EvalKind::Centipawn);
    assert_eq!(l.eval_value, -35);
    let shallow = s.handle_engine_line("info depth 3 multipv 1 score mate 2 pv a2a3");
    assert!(shallow.is_empty());
    assert_eq!(s.current_pv.depth, 12);
    let best = s.handle_engine_line("bestmove e2e4");
    assert!(matches!(&best[0], EngineAction::Send(t) if t == "go depth 40 movetime 20000"));
}

#[test]
fn startup_options_fill_in_defaults() {
    let mut settings = Settings { corrupted: false, map: vec![("Threads".to_string(), "4".to_string())] };
    let opts = startup_options(&mut settings);
    assert_eq!(opts[0], ("MultiPV".to_string(), "1".to_string()));
    assert_eq!(opts[1], ("Threads".to_string(), "4".to_string()));
    assert_eq!(opts[2], ("HashSize".to_string(), "128".to_string()));
    assert_eq!(settings.get("HashSize"), Some("128".to_string()));
}

#[test]
fn settings_update_grows_only_for_new_keys_and_repeats_change_nothing() {
    let mut s = Settings {
        corrupted: false,
        map: vec![("Threads".to_string(), "4".to_string()), ("MultiPV".to_string(), "1".to_string())],
    };
    s.update("Threads".to_string(), "8".to_string());
    assert_eq!(s.map.len(), 2);
    assert_eq!(s.map, vec![("MultiPV".to_string(), "1".to_string()), ("Threads".to_string(), "8".to_string())]);
    let once = s.map.clone();
    s.update("Threads".to_string(), "8".to_string());
    assert_eq!(s.map, once);
    s.update("HashSize".to_string(), "64".to_string());
    assert_eq!(s.map.len(), 3);
    assert_eq!(s.get("Threads"), Some("8".to_string()));
}

#[test]
fn a_queen_moves_as_bishop_then_rook() {
    let b = koch::engine::board::Board::from(&"4k3/8/8/3p4/8/8/8/3QK3 w - - 0 1".to_string());
    let q = b.squares[7][3].unwrap();
    let mut bi = q;
    bi.kind = PieceType::Bishop;
    let mut ro = q;
    ro.kind = PieceType::Rook;
    let mut both = b.get_all_moves(&bi);
    both.extend(b.get_all_moves(&ro));
    assert_eq!(b.get_all_moves(&q), both);
    assert!(b.get_all_moves(&q).contains(&(3, 3)));
    assert!(!b.get_all_moves(&q).contains(&(2, 3)));
}
