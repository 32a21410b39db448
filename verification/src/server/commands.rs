use vstd::prelude::*;

use crate::analyzer::analyzer::{AnalyzerController, LocalChat};
use crate::analyzer::navigation::read_from;
use crate::database::pgn::{metadata_to_pgn, pgn_of};
use crate::engine::board::{Board, BoardMetaData, GameResult};
use crate::engine::fen::{fen_of, fen_parser_defined, is_default_board, lemma_default_board_on_board};
use crate::engine::move_gen::cache_refreshed;
use crate::engine::piece::PieceColor;
use crate::game::controller::{is_new_game, GameController, GameControllerMode, TerminationReason};
use crate::server::server::Settings;
use crate::text::{
    chars_of, parse_u32, parse_u32_spec, parse_usize, parse_usize_spec, push_signed_decimal, push_str,
    signed_decimal,
};

verus! {

/// The stored setting under `key`, or `default` where there is none.
pub open spec fn setting_or(s: Settings, key: Seq<char>, default: Seq<char>) -> Seq<char> {
    match s.value_of(key) {
        Some(v) => v,
        None => default,
    }
}

/// A rating as a `usize`: its number, 500 where it does not read.
pub open spec fn elo_of(t: Seq<char>) -> usize {
    match parse_usize_spec(t) {
        Some(n) => n,
        None => 500,
    }
}

/// A rating as a `u32`: its number, 500 where it does not read.
pub open spec fn engine_elo_of(t: Seq<char>) -> u32 {
    match parse_u32_spec(t) {
        Some(n) => n,
        None => 500,
    }
}

/// The stored text under `key`, or `default`.
fn stored_or(settings: &Settings, key: &str, default: &str) -> (v: Vec<char>)
    requires
        settings.wf(),
    ensures
        v@ == setting_or(*settings, key@, default@),
{
    match settings.get(key) {
        Some(t) => chars_of(t.as_str()),
        None => chars_of(default),
    }
}

/// A new rapid game with the player's and the engine's ratings from the
/// settings (`PlayerElo`, `StockfishElo`; 500 where missing or not a
/// number), each on the player's or the engine's side; and the engine's
/// rating to set on the engine.
pub fn new_game(settings: &Settings) -> (r: (GameController, u32))
    requires
        settings.wf(),
    ensures
        ({
            let (g, engine_elo) = r;
            let player = setting_or(*settings, "PlayerElo"@, "500"@);
            let engine = setting_or(*settings, "StockfishElo"@, "500"@);
            &&& is_new_game(GameController { white_elo: 500, black_elo: 500, ..g }, GameControllerMode::Rapid)
            &&& g.white_elo == if g.player == PieceColor::White { elo_of(player) } else { elo_of(engine) }
            &&& g.black_elo == if g.player == PieceColor::White { elo_of(engine) } else { elo_of(player) }
            &&& engine_elo == engine_elo_of(engine)
        }),
{
    let player_elo = stored_or(settings, "PlayerElo", "500");
    let engine_elo = stored_or(settings, "StockfishElo", "500");
    let mut g = GameController::new();
    let player_n = match parse_usize(&player_elo) {
        Some(n) => n,
        None => 500,
    };
    let engine_n = match parse_usize(&engine_elo) {
        Some(n) => n,
        None => 500,
    };
    match g.player {
        PieceColor::White => {
            g.white_elo = player_n;
            g.black_elo = engine_n;
        },
        PieceColor::Black => {
            g.white_elo = engine_n;
            g.black_elo = player_n;
        },
    }
    let engine_rating = match parse_u32(&engine_elo) {
        Some(n) => n,
        None => 500,
    };
    (g, engine_rating)
}

/// The game record a finished game is saved as: the board's record with the
/// date given, the game's termination (a timeout where none) and result
/// (unfinished where none), the ratings (modulo 2^32) and the names.
pub fn game_record(game: GameController, date: String) -> (m: BoardMetaData)
    ensures
        m == (BoardMetaData {
            date: m.date,
            termination: match game.termination_reason {
                Some(t) => t,
                None => TerminationReason::Timeout,
            },
            result: match game.result {
                Some(r) => r,
                None => GameResult::Unfinished,
            },
            white_player_elo: m.white_player_elo,
            black_player_elo: m.black_player_elo,
            white_player_name: game.white_name,
            black_player_name: game.black_name,
            ..game.board.meta_data
        }),
        m.date@ == date@,
        m.white_player_elo as int == game.white_elo as int % 0x1_0000_0000,
        m.black_player_elo as int == game.black_elo as int % 0x1_0000_0000,
{
    let white = game.white_elo;
    let black = game.black_elo;
    let white_elo: u32 = (white as u64 % 0x1_0000_0000) as u32;
    let black_elo: u32 = (black as u64 % 0x1_0000_0000) as u32;
    let mut meta = game.board.meta_data;
    meta.date = date;
    meta.termination = match game.termination_reason {
        Some(t) => t,
        None => TerminationReason::Timeout,
    };
    meta.result = match game.result {
        Some(r) => r,
        None => GameResult::Unfinished,
    };
    meta.white_player_elo = white_elo;
    meta.black_player_elo = black_elo;
    meta.white_player_name = game.white_name;
    meta.black_player_name = game.black_name;
    meta
}

/// What is shared of a game: the board's FEN and the game record as PGN.
pub fn get_share_data(game: &GameController) -> (r: (String, String))
    ensures
        r.0@ == fen_of(game.board),
        r.1@ == pgn_of(game.board.meta_data),
{
    (game.board.to_string(), metadata_to_pgn(&game.board.meta_data))
}

/// The analysis board of a stored game: the board read from the record's
/// start position (as `Board::from` reads it) with the record, at the start
/// (ply -1), with the game's id and chat, no undo records and nothing found.
pub fn fetch_game(id: usize, record: BoardMetaData, chat: LocalChat) -> (a: AnalyzerController)
    requires
        fen_parser_defined(record.starting_position@),
    ensures
        exists|b0: Board| #[trigger] read_from(b0, record.starting_position@) && a.board == (Board {
            meta_data: record,
            ..b0
        }),
        a.game_id == id,
        a.current_ply == -1,
        a.board_undo@.len() == 0,
        a.last_threat is None,
        a.last_pv is None,
        a.chat_history == chat,
{
    let mut analyzer = AnalyzerController::default();
    let mut board = Board::from(&record.starting_position);
    let ghost b0 = board;
    let ghost start = record.starting_position@;
    board.meta_data = record;
    analyzer.board = board;
    analyzer.game_id = id;
    analyzer.current_ply = -1;
    analyzer.chat_history = chat;
    assert(read_from(b0, start));
    analyzer
}

/// The analysis board of the standard position, its move cache refreshed.
pub fn fetch_default_game() -> (a: AnalyzerController)
    ensures
        exists|b: Board| is_default_board(b) && #[trigger] cache_refreshed(
            b.move_cache@,
            a.board.move_cache@,
            b.squares,
            b.en_passant_target,
            64,
        ) && a.board == (Board { move_cache: a.board.move_cache, ..b }),
        a.game_id == 0,
        a.current_ply == -1,
        a.board_undo@.len() == 0,
        a.last_threat is None,
        a.last_pv is None,
        a.chat_history.chat_id == -1,
        a.chat_history.chat_messages@.len() == 0,
{
    let mut analyzer = AnalyzerController::default();
    let ghost b = analyzer.board;
    proof {
        lemma_default_board_on_board(analyzer.board);
    }
    analyzer.board.rerender_move_cache();
    assert(cache_refreshed(b.move_cache@, analyzer.board.move_cache@, b.squares, b.en_passant_target, 64));
    analyzer
}

/// The address of a chess.com player's games of September of `year`.
pub open spec fn chessdotcom_url(user: Seq<char>, year: i32) -> Seq<char> {
    "https://api.chess.com/pub/player/"@ + user + "/games/"@ + signed_decimal(year as int) + "/09"@
}

/// The address of a chess.com player's games of September of `year`
/// (`chessdotcom_url`).
pub fn chessdotcom_games_url(user: &str, year: i32) -> (url: String)
    ensures
        url@ == chessdotcom_url(user@, year),
{
    let mut url = String::new();
    push_str(&mut url, "https://api.chess.com/pub/player/");
    push_str(&mut url, user);
    push_str(&mut url, "/games/");
    push_signed_decimal(&mut url, year as i64);
    push_str(&mut url, "/09");
    url
}

/// The chess.com user name stored under `chessdotcom_user`, or the error
/// that none is stored.
pub fn chessdotcom_user(settings: &Settings) -> (r: Result<String, String>)
    requires
        settings.wf(),
    ensures
        match settings.value_of("chessdotcom_user"@) {
            Some(u) => r matches Ok(s) && s@ == u,
            None => r matches Err(e) && e@ == "nu chieie in setari"@,
        },
{
    match settings.get("chessdotcom_user") {
        Some(u) => Ok(u),
        None => Err(String::from_str("nu chieie in setari")),
    }
}

} // verus!
