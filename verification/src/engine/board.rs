use std::collections::HashMap;
use vstd::prelude::*;

use crate::engine::move_gen::{
    all_moves, cache_refreshed, flat_piece, forward, last_with_id_below,
    lemma_all_moves_on_board, lemma_pawn_side_moves, legal_captures, legal_quiet, on_board, positions_consistent, MoveError,
};
use crate::engine::capture::{capture_pred, capture_target, safe_pred};
use crate::engine::quiet::{king_step_ok, lemma_filter_subset, legal_quiet_pred, quiet_pred};
use crate::engine::san::san_of;
use crate::engine::simulate::contains_square;
use crate::engine::uci::encode_uci;
use crate::engine::piece::{opposite, ChessPiece, PieceColor, PieceType, Squares};
use crate::engine::simulate::{lemma_put, lemma_squares_ext, put};
use crate::text::{decimal, push_decimal, push_signed_decimal, push_str, signed_decimal, str_eq};
use crate::game::controller::TerminationReason;
use crate::etc::DEFAULT_FEN;

verus! {

broadcast use vstd::array::group_array_axioms;

/// Whether an evaluation counts centipawns or moves to mate.
#[derive(Clone, Copy, Debug, PartialEq, Eq, Structural)]
pub enum EvalType {
    Centipawn,
    Mate,
}

/// How a stored game ended.
#[derive(Clone, Copy, Debug, PartialEq, Eq, Structural)]
pub enum TerminationBy {
    Checkmate,
    StaleMate,
    Draw,
    Timeout,
    Resignation,
    Unknown,
}

/// The quiet moves, captures and attacked squares of one piece.
#[derive(Clone, Debug)]
pub struct PieceMoves {
    pub quiet_moves: Vec<(u8, u8)>,
    pub capture_moves: Vec<(u8, u8)>,
    pub attacks: Vec<(u8, u8)>,
}

/// A move given by its two squares.
#[derive(Clone, Copy, Debug)]
pub struct MoveInfo {
    pub old_pos: (u8, u8),
    pub new_pos: (u8, u8),
    pub promotion: Option<PieceType>,
    pub is_capture: bool,
}

/// The result of a game.
#[derive(Clone, Copy, Debug, PartialEq, Eq, Structural)]
pub enum GameResult {
    WhiteWin,
    BlackWin,
    Draw,
    Unfinished,
}

/// The stage a game has reached.
#[derive(Clone, Copy, Debug, PartialEq, Eq, Structural)]
pub enum GamePhase {
    Opening,
    MiddleGame,
    EndGame,
}

/// The two ways to castle.
#[derive(Clone, Copy, Debug, PartialEq, Eq, Structural)]
pub enum CastleType {
    QueenSide,
    KingSide,
}

/// One half-move of a game with its notations and annotations.
#[derive(Clone, Debug)]
pub struct MoveStruct {
    pub move_number: u32,
    pub san: String,
    pub uci: String,
    pub promotion: Option<PieceType>,
    pub is_capture: bool,
    pub annotation: Option<String>,
    pub nag: Option<i32>,
    pub time_stamp: Option<u32>,
    pub clock: Option<String>,
}

/// The record of a game: its tags and its moves.
#[derive(Clone, Debug)]
pub struct BoardMetaData {
    pub starting_position: String,
    pub date: String,
    pub move_list: Vec<MoveStruct>,
    pub termination: TerminationReason,
    pub result: GameResult,
    pub white_player_elo: u32,
    pub black_player_elo: u32,
    pub white_player_name: String,
    pub black_player_name: String,
    pub opening: Option<String>,
    pub event: Option<String>,
    pub site: Option<String>,
    pub round: Option<String>,
    pub time_control: Option<String>,
    pub end_time: Option<String>,
    pub link: Option<String>,
    pub eco: Option<String>,
}

/// The local date and time as `YYYY-MM-DD HH:MM:SS`, by
/// `chrono::Local::now` and `format`. It depends on the clock and the time
/// zone, so nothing is stated of it.
#[verifier::external_body]
fn local_date_time() -> String {
    chrono::Local::now().format("%Y-%m-%d %H:%M:%S").to_string()
}

/// A game record as it starts from the position `start`: no moves, no
/// players or ratings, unfinished, with no optional tags; the date is left
/// open.
pub open spec fn is_new_record(m: BoardMetaData, start: Seq<char>) -> bool {
    &&& m.starting_position@ == start
    &&& m.move_list@.len() == 0
    &&& m.termination == TerminationReason::Draw
    &&& m.result == GameResult::Unfinished
    &&& m.white_player_elo == 0
    &&& m.black_player_elo == 0
    &&& m.white_player_name@.len() == 0
    &&& m.black_player_name@.len() == 0
    &&& m.opening is None
    &&& m.event is None
    &&& m.site is None
    &&& m.round is None
    &&& m.time_control is None
    &&& m.end_time is None
    &&& m.link is None
    &&& m.eco is None
}

/// A new game record from the standard position.
pub open spec fn is_default_meta(m: BoardMetaData) -> bool {
    is_new_record(m, DEFAULT_FEN@)
}

impl BoardMetaData {
    /// Reserved for writing the record as PGN in place; it does nothing yet
    /// (`metadata_to_pgn` gives the text).
    pub fn to_pgn(&self) {
    }

    /// A new game record dated now.
    pub fn default() -> (m: BoardMetaData)
        ensures
            is_default_meta(m),
    {
        BoardMetaData {
            starting_position: String::from_str(DEFAULT_FEN),
            date: local_date_time(),
            move_list: Vec::new(),
            termination: TerminationReason::Draw,
            result: GameResult::Unfinished,
            white_player_elo: 0,
            black_player_elo: 0,
            white_player_name: String::new(),
            black_player_name: String::new(),
            opening: None,
            event: None,
            site: None,
            round: None,
            time_control: None,
            end_time: None,
            link: None,
            eco: None,
        }
    }
}

/// A position with its game record and a cache of each piece's moves, keyed by
/// piece id.
#[derive(Clone)]
pub struct Board {
    pub squares: Squares,
    pub turn: PieceColor,
    pub white_big_castle: bool,
    pub black_big_castle: bool,
    pub white_small_castle: bool,
    pub black_small_castle: bool,
    pub halfmove_clock: u32,
    pub fullmove_number: u32,
    pub en_passant_target: Option<(u8, u8)>,
    pub meta_data: BoardMetaData,
    pub move_cache: HashMap<u32, PieceMoves>,
    pub next_id: u32,
    pub game_phase: GamePhase,
    pub ply_count: u32,
}


/// No two pieces on the grid share an id.
pub open spec fn ids_unique(b: Squares) -> bool {
    forall|r1: int, c1: int, r2: int, c2: int|
        0 <= r1 < 8 && 0 <= c1 < 8 && 0 <= r2 < 8 && 0 <= c2 < 8 && (#[trigger] b[r1][c1]) is Some
            && (#[trigger] b[r2][c2]) is Some && b[r1][c1]->0.id == b[r2][c2]->0.id ==> r1 == r2
            && c1 == c2
}

/// On a grid with unique ids, the last square carrying a piece's id is the
/// piece's own square.
pub proof fn lemma_last_with_id_unique(b: Squares, r: int, c: int, n: int)
    requires
        ids_unique(b),
        0 <= r < 8,
        0 <= c < 8,
        b[r][c] is Some,
        r * 8 + c < n <= 64,
    ensures
        last_with_id_below(b, b[r][c]->0.id, n) == r * 8 + c,
    decreases n,
{
    let k = n - 1;
    if k != r * 8 + c {
        let (kr, kc) = (k / 8, k % 8);
        assert(flat_piece(b, k) == b[kr][kc]);
        if b[kr][kc] is Some && b[kr][kc]->0.id == b[r][c]->0.id {
            assert(kr == r && kc == c);
        }
        lemma_last_with_id_unique(b, r, c, n - 1);
    } else {
        assert(flat_piece(b, k) == b[r][c]);
    }
}

/// A square with a piece lifted off it and set down, moved and marked as
/// having moved, on another square of the same row; nothing happens when the
/// first square is empty.
pub open spec fn relocate(b: Squares, r: int, from_c: int, to_c: int) -> Squares {
    match b[r][from_c] {
        Some(p) => put(
            put(b, r, from_c, None),
            r,
            to_c,
            Some(ChessPiece { position: (r as u8, to_c as u8), has_moved: true, ..p }),
        ),
        None => b,
    }
}

/// The material value of a piece kind: minor pieces 3, rook 5, queen 9; pawns
/// and kings count nothing.
pub open spec fn material_of(kind: PieceType) -> int {
    match kind {
        PieceType::Bishop => 3,
        PieceType::Knight => 3,
        PieceType::Queen => 9,
        PieceType::Rook => 5,
        _ => 0,
    }
}

/// The material of both sides on the first `k` flat squares.
pub open spec fn material_below(b: Squares, k: int) -> int
    decreases k,
{
    if k <= 0 {
        0
    } else {
        material_below(b, k - 1) + match flat_piece(b, k - 1) {
            Some(p) => material_of(p.kind),
            None => 0,
        }
    }
}

/// The material of both sides on the board.
pub open spec fn material_total(b: Squares) -> int {
    material_below(b, 64)
}

/// A bishop, knight or queen of `color` on the square.
pub open spec fn is_minor_or_queen(sq: Option<ChessPiece>, color: PieceColor) -> bool {
    match sq {
        Some(p) => p.color == color && (p.kind == PieceType::Bishop || p.kind == PieceType::Knight
            || p.kind == PieceType::Queen),
        None => false,
    }
}

/// How many bishops, knights and queens of `color` stand on row `row` in the
/// first `k` columns.
pub open spec fn back_rank_count(b: Squares, row: int, color: PieceColor, k: int) -> int
    decreases k,
{
    if k <= 0 {
        0
    } else {
        back_rank_count(b, row, color, k - 1) + if is_minor_or_queen(b[row][k - 1], color) {
            1int
        } else {
            0int
        }
    }
}

/// A side's back rank is still blocked: more than three of its bishops,
/// knights and queen stand there (White's on row 7, Black's on row 0).
pub open spec fn back_rank_blocked(b: Squares, color: PieceColor) -> bool {
    back_rank_count(b, if color == PieceColor::White { 7int } else { 0int }, color, 8) > 3
}

/// The phase of a game with `moves` plies recorded: endgame once both sides
/// together have at most 30 points of material; else opening while fewer
/// than 15 moves are played, or a side's back rank is still blocked, or all
/// four castling rights remain; else middlegame.
pub open spec fn phase_of(b: Squares, moves: int, wb: bool, ws: bool, bb: bool, bs: bool) -> GamePhase {
    if material_total(b) <= 30 {
        GamePhase::EndGame
    } else if moves / 2 < 15 || back_rank_blocked(b, PieceColor::White) || back_rank_blocked(
        b,
        PieceColor::Black,
    ) || (ws && wb && bs && bb) {
        GamePhase::Opening
    } else {
        GamePhase::MiddleGame
    }
}

/// `x + 1`, staying at the maximum.
pub open spec fn saturating_inc(x: u32) -> u32 {
    if x == u32::MAX {
        x
    } else {
        (x + 1) as u32
    }
}

impl Board {
    /// The board is consistent: every piece sits on the square its position
    /// names, and no two pieces share an id.
    pub open spec fn wf(&self) -> bool {
        positions_consistent(self.squares) && ids_unique(self.squares)
    }

    /// Hands the move to the other side.
    pub fn change_turn(&mut self)
        ensures
            *final(self) == (Board { turn: opposite(old(self).turn), ..*old(self) }),
    {
        self.turn = match self.turn {
            PieceColor::Black => PieceColor::White,
            PieceColor::White => PieceColor::Black,
        };
    }

    /// Changes the kind of the piece on `pos`, if there is one.
    pub fn promote_pawn(&mut self, pos: (u8, u8), kind: PieceType)
        requires
            on_board(pos),
        ensures
            *final(self) == (Board {
                squares: match old(self).squares[pos.0 as int][pos.1 as int] {
                    Some(p) => put(
                        old(self).squares,
                        pos.0 as int,
                        pos.1 as int,
                        Some(ChessPiece { kind, ..p }),
                    ),
                    None => old(self).squares,
                },
                ..*old(self)
            }),
    {
        let ghost b0 = self.squares;
        if let Some(pawn) = self.squares[pos.0 as usize][pos.1 as usize] {
            let mut p = pawn;
            p.kind = kind;
            self.squares[pos.0 as usize][pos.1 as usize] = Some(p);
            proof {
                lemma_put(b0, pos.0 as int, pos.1 as int, Some(p));
                lemma_squares_ext(self.squares, put(b0, pos.0 as int, pos.1 as int, Some(p)));
            }
        }
    }

    /// The king squares of a castle: from e1 or e8 to g- or c-file of the same
    /// back rank.
    pub fn is_player_castle(&self, from: (u8, u8), to: (u8, u8)) -> (castle: bool)
        ensures
            castle == ((from == (0u8, 4u8) && (to == (0u8, 6u8) || to == (0u8, 2u8))) || (from == (
            7u8,
            4u8,
        ) && (to == (7u8, 6u8) || to == (7u8, 2u8)))),
    {
        (from.0 == 0 && from.1 == 4 && to.0 == 0 && (to.1 == 6 || to.1 == 2)) || (from.0 == 7
            && from.1 == 4 && to.0 == 7 && (to.1 == 6 || to.1 == 2))
    }

    /// The UCI strings of the four castling moves.
    pub fn is_engine_castle(&self, uci: &str) -> (castle: bool)
        ensures
            castle == (uci@ == "e1g1"@ || uci@ == "e1c1"@ || uci@ == "e8g8"@ || uci@ == "e8c8"@),
    {
        str_eq(uci, "e1g1") || str_eq(uci, "e1c1") || str_eq(uci, "e8g8") || str_eq(uci, "e8c8")
    }

    /// Moves whatever stands on `(r, from_c)` to `(r, to_c)`, marking it moved.
    fn relocate_piece(&mut self, r: u8, from_c: u8, to_c: u8)
        requires
            r < 8,
            from_c < 8,
            to_c < 8,
            from_c != to_c,
        ensures
            *final(self) == (Board {
                squares: relocate(old(self).squares, r as int, from_c as int, to_c as int),
                ..*old(self)
            }),
    {
        let ghost b0 = self.squares;
        if let Some(piece) = self.squares[r as usize][from_c as usize] {
            self.squares[r as usize][from_c as usize] = None;
            let ghost b1 = self.squares;
            let mut p = piece;
            p.position = (r, to_c);
            p.has_moved = true;
            self.squares[r as usize][to_c as usize] = Some(p);
            proof {
                lemma_put(b0, r as int, from_c as int, None);
                lemma_squares_ext(b1, put(b0, r as int, from_c as int, None));
                lemma_put(b1, r as int, to_c as int, Some(p));
                lemma_squares_ext(
                    self.squares,
                    relocate(b0, r as int, from_c as int, to_c as int),
                );
            }
        }
    }

    /// Plays a castle given by the king's squares: king e-file to g-file moves
    /// the h-rook to the f-file, king to c-file moves the a-rook to the d-file,
    /// and the castling rights of the side on that rank are cleared. Other
    /// squares do nothing.
    pub fn execute_player_castle(&mut self, from: (u8, u8), to: (u8, u8))
        requires
            on_board(from),
        ensures
            *final(self) == if from.1 == 4 && from.0 == to.0 && (to.1 == 6 || to.1 == 2) {
                let r = from.0 as int;
                let kingside = to.1 == 6;
                let b1 = relocate(old(self).squares, r, 4, to.1 as int);
                let b2 = if kingside {
                    relocate(b1, r, 7, 5)
                } else {
                    relocate(b1, r, 0, 3)
                };
                if r == 7 {
                    Board {
                        squares: b2,
                        white_small_castle: false,
                        white_big_castle: false,
                        ..*old(self)
                    }
                } else {
                    Board {
                        squares: b2,
                        black_small_castle: false,
                        black_big_castle: false,
                        ..*old(self)
                    }
                }
            } else {
                *old(self)
            },
    {
        if from.1 == 4 && from.0 == to.0 && (to.1 == 6 || to.1 == 2) {
            let r = from.0;
            if to.1 == 6 {
                self.relocate_piece(r, 4, 6);
                self.relocate_piece(r, 7, 5);
            } else {
                self.relocate_piece(r, 4, 2);
                self.relocate_piece(r, 0, 3);
            }
            if r == 7 {
                self.white_small_castle = false;
                self.white_big_castle = false;
            } else {
                self.black_small_castle = false;
                self.black_big_castle = false;
            }
        }
    }

    /// Plays a castle given in UCI (`e1g1`, `e1c1`, `e8g8`, `e8c8`) as
    /// `execute_player_castle` does; any other string does nothing.
    pub fn execute_engine_castle(&mut self, uci: &str)
        ensures
            *final(self) == if uci@ == "e1g1"@ {
                Board {
                    squares: relocate(relocate(old(self).squares, 7, 4, 6), 7, 7, 5),
                    white_small_castle: false,
                    white_big_castle: false,
                    ..*old(self)
                }
            } else if uci@ == "e1c1"@ {
                Board {
                    squares: relocate(relocate(old(self).squares, 7, 4, 2), 7, 0, 3),
                    white_small_castle: false,
                    white_big_castle: false,
                    ..*old(self)
                }
            } else if uci@ == "e8g8"@ {
                Board {
                    squares: relocate(relocate(old(self).squares, 0, 4, 6), 0, 7, 5),
                    black_small_castle: false,
                    black_big_castle: false,
                    ..*old(self)
                }
            } else if uci@ == "e8c8"@ {
                Board {
                    squares: relocate(relocate(old(self).squares, 0, 4, 2), 0, 0, 3),
                    black_small_castle: false,
                    black_big_castle: false,
                    ..*old(self)
                }
            } else {
                *old(self)
            },
    {
        if str_eq(uci, "e1g1") {
            self.relocate_piece(7, 4, 6);
            self.relocate_piece(7, 7, 5);
            self.white_small_castle = false;
            self.white_big_castle = false;
        } else if str_eq(uci, "e1c1") {
            self.relocate_piece(7, 4, 2);
            self.relocate_piece(7, 0, 3);
            self.white_small_castle = false;
            self.white_big_castle = false;
        } else if str_eq(uci, "e8g8") {
            self.relocate_piece(0, 4, 6);
            self.relocate_piece(0, 7, 5);
            self.black_small_castle = false;
            self.black_big_castle = false;
        } else if str_eq(uci, "e8c8") {
            self.relocate_piece(0, 4, 2);
            self.relocate_piece(0, 0, 3);
            self.black_small_castle = false;
            self.black_big_castle = false;
        }
    }

    /// Minor pieces 3, rook 5, queen 9, pawn and king 0.
    pub fn material_value(kind: &PieceType) -> (v: u8)
        ensures
            v == material_of(*kind),
    {
        match kind {
            PieceType::Bishop => 3,
            PieceType::Knight => 3,
            PieceType::Queen => 9,
            PieceType::Rook => 5,
            _ => 0,
        }
    }

    /// Sets the game phase from the material on the board, the number of
    /// moves recorded, the pieces left on the back ranks and the castling
    /// rights (`phase_of`).
    pub fn update_gamephase(&mut self)
        requires
            material_total(old(self).squares) <= 255,
        ensures
            *final(self) == (Board {
                game_phase: phase_of(
                    old(self).squares,
                    old(self).meta_data.move_list@.len() as int,
                    old(self).white_big_castle,
                    old(self).white_small_castle,
                    old(self).black_big_castle,
                    old(self).black_small_castle,
                ),
                ..*old(self)
            }),
    {
        let mut material_sum: u8 = 0;
        let mut k: usize = 0;
        while k < 64
            invariant
                k <= 64,
                material_sum == material_below(self.squares, k as int),
                material_total(self.squares) <= 255,
            decreases 64 - k,
        {
            proof {
                lemma_material_monotone(self.squares, k as int + 1, 64);
            }
            if let Some(piece) = &self.squares[k / 8][k % 8] {
                material_sum = material_sum + Board::material_value(&piece.kind);
            }
            k += 1;
        }
        let mut white_backrank: u8 = 0;
        let mut black_backrank: u8 = 0;
        let mut j: usize = 0;
        while j < 8
            invariant
                j <= 8,
                white_backrank == back_rank_count(self.squares, 7, PieceColor::White, j as int),
                black_backrank == back_rank_count(self.squares, 0, PieceColor::Black, j as int),
                white_backrank <= j,
                black_backrank <= j,
            decreases 8 - j,
        {
            if let Some(piece) = &self.squares[7][j] {
                if piece.color == PieceColor::White && (piece.kind == PieceType::Bishop || piece.kind
                    == PieceType::Knight || piece.kind == PieceType::Queen) {
                    white_backrank += 1;
                }
            }
            if let Some(piece) = &self.squares[0][j] {
                if piece.color == PieceColor::Black && (piece.kind == PieceType::Bishop || piece.kind
                    == PieceType::Knight || piece.kind == PieceType::Queen) {
                    black_backrank += 1;
                }
            }
            j += 1;
        }
        let few_moves = self.meta_data.move_list.len() / 2 < 15;
        let kings_untouched = self.white_small_castle && self.white_big_castle
            && self.black_small_castle && self.black_big_castle;
        self.game_phase = if material_sum <= 30 {
            GamePhase::EndGame
        } else if few_moves || white_backrank > 3 || black_backrank > 3 || kings_untouched {
            GamePhase::Opening
        } else {
            GamePhase::MiddleGame
        };
    }
}

/// Material only grows as more squares are counted.
pub proof fn lemma_material_monotone(b: Squares, j: int, k: int)
    requires
        0 <= j <= k,
    ensures
        material_below(b, j) <= material_below(b, k),
    decreases k - j,
{
    if j < k {
        lemma_material_monotone(b, j, k - 1);
    }
}


/// What a filter holds comes from the filtered sequence and meets the predicate.
pub proof fn lemma_filter_member<A>(s: Seq<A>, pred: spec_fn(A) -> bool, x: A)
    requires
        s.filter(pred).contains(x),
    ensures
        s.contains(x),
        pred(x),
{
    lemma_filter_subset(s, pred);
    let i = choose|i: int| 0 <= i < s.filter(pred).len() && s.filter(pred)[i] == x;
    assert(s.contains(s.filter(pred)[i]));
}

/// The piece a pawn promotes to when it reaches its last rank: the one asked
/// for, or a queen.
pub open spec fn promotion_applied(p: ChessPiece, to: (u8, u8), promotion: Option<PieceType>) -> Option<
    PieceType,
> {
    if p.kind == PieceType::Pawn && ((p.color == PieceColor::White && to.0 == 0) || (p.color
        == PieceColor::Black && to.0 == 7)) {
        Some(
            match promotion {
                Some(k) => k,
                None => PieceType::Queen,
            },
        )
    } else {
        None
    }
}

/// A pawn moving to an empty square while capturing takes en passant.
pub open spec fn takes_en_passant(b: Squares, p: ChessPiece, to: (u8, u8), is_capture: bool) -> bool {
    is_capture && p.kind == PieceType::Pawn && b[to.0 as int][to.1 as int] is None
}

/// The row of the pawn taken en passant: behind `to` as seen from the mover.
pub open spec fn taken_row(p: ChessPiece, to: (u8, u8)) -> int {
    to.0 - forward(p.color)
}

/// The piece a move takes, if any.
pub open spec fn captured_by(b: Squares, p: ChessPiece, to: (u8, u8), is_capture: bool) -> Option<ChessPiece> {
    if !is_capture {
        None
    } else if takes_en_passant(b, p, to, is_capture) {
        b[taken_row(p, to)][to.1 as int]
    } else {
        b[to.0 as int][to.1 as int]
    }
}

/// The grid after `p` moves from `from` to `to`: the taken piece is removed,
/// the mover lands on `to` with its new position, marked as moved, and
/// promoted when a pawn reaches its last rank.
pub open spec fn squares_after(
    b: Squares,
    p: ChessPiece,
    from: (u8, u8),
    to: (u8, u8),
    promotion: Option<PieceType>,
    is_capture: bool,
) -> Squares {
    let b1 = if !is_capture {
        b
    } else if takes_en_passant(b, p, to, is_capture) {
        put(b, taken_row(p, to), to.1 as int, None)
    } else {
        put(b, to.0 as int, to.1 as int, None)
    };
    let b2 = put(b1, from.0 as int, from.1 as int, None);
    let moved = ChessPiece {
        kind: match promotion_applied(p, to, promotion) {
            Some(k) => k,
            None => p.kind,
        },
        position: to,
        has_moved: true,
        ..p
    };
    put(b2, to.0 as int, to.1 as int, Some(moved))
}

/// The castling rights `(white queen side, white king side, black queen side,
/// black king side)` after a move: a king move clears both of its side, a rook
/// leaving its corner clears that side's right, and a rook taken on its corner
/// clears the right of its owner.
pub open spec fn rights_after(
    rights: (bool, bool, bool, bool),
    p: ChessPiece,
    from: (u8, u8),
    captured: Option<ChessPiece>,
) -> (bool, bool, bool, bool) {
    let (wb, ws, bb, bs) = rights;
    let (wb, ws, bb, bs) = if p.kind == PieceType::King {
        if p.color == PieceColor::White {
            (false, false, bb, bs)
        } else {
            (wb, ws, false, false)
        }
    } else if p.kind == PieceType::Rook {
        if p.color == PieceColor::White {
            (if from == (7u8, 0u8) { false } else { wb }, if from == (7u8, 7u8) { false } else { ws }, bb, bs)
        } else {
            (wb, ws, if from == (0u8, 0u8) { false } else { bb }, if from == (0u8, 7u8) { false } else { bs })
        }
    } else {
        (wb, ws, bb, bs)
    };
    match captured {
        Some(c) => if c.kind == PieceType::Rook {
            if c.color == PieceColor::White && c.position == (7u8, 0u8) {
                (false, ws, bb, bs)
            } else if c.color == PieceColor::White && c.position == (7u8, 7u8) {
                (wb, false, bb, bs)
            } else if c.color == PieceColor::Black && c.position == (0u8, 0u8) {
                (wb, ws, false, bs)
            } else if c.color == PieceColor::Black && c.position == (0u8, 7u8) {
                (wb, ws, bb, false)
            } else {
                (wb, ws, bb, bs)
            }
        } else {
            (wb, ws, bb, bs)
        },
        None => (wb, ws, bb, bs),
    }
}

/// The en-passant target after a move: the square a pawn skipped with a double
/// step, else none.
pub open spec fn ep_after(p: ChessPiece, from: (u8, u8), to: (u8, u8), is_capture: bool) -> Option<
    (u8, u8),
> {
    if p.kind == PieceType::Pawn && !is_capture && (to.0 == from.0 + 2 || from.0 == to.0 + 2) {
        Some((((from.0 + to.0) / 2) as u8, from.1))
    } else {
        None
    }
}

/// The castling rights of a board as a tuple.
pub open spec fn rights_of(b: Board) -> (bool, bool, bool, bool) {
    (b.white_big_castle, b.white_small_castle, b.black_big_castle, b.black_small_castle)
}

/// A rook leaving its own corner loses that side's castling: for White the
/// a1 rook (row 7, column 0) the long castle and the h1 rook (row 7, column
/// 7) the short one, for Black the a8 and h8 rooks (row 0); a king move
/// loses both castles of its side. The other side keeps its rights unless
/// its rook is taken on its corner.
pub proof fn lemma_rook_and_king_rights(
    rights: (bool, bool, bool, bool),
    p: ChessPiece,
    from: (u8, u8),
    captured: Option<ChessPiece>,
)
    ensures
        ({
            let after = rights_after(rights, p, from, captured);
            &&& p.kind == PieceType::Rook && p.color == PieceColor::White && from == (7u8, 0u8) ==> !after.0
            &&& p.kind == PieceType::Rook && p.color == PieceColor::White && from == (7u8, 7u8) ==> !after.1
            &&& p.kind == PieceType::Rook && p.color == PieceColor::Black && from == (0u8, 0u8) ==> !after.2
            &&& p.kind == PieceType::Rook && p.color == PieceColor::Black && from == (0u8, 7u8) ==> !after.3
            &&& p.kind == PieceType::King && p.color == PieceColor::White ==> !after.0 && !after.1
            &&& p.kind == PieceType::King && p.color == PieceColor::Black ==> !after.2 && !after.3
            &&& after.0 ==> rights.0
            &&& after.1 ==> rights.1
            &&& after.2 ==> rights.2
            &&& after.3 ==> rights.3
            &&& captured is None && p.kind != PieceType::King && p.kind != PieceType::Rook ==> after == rights
        }),
{
}

/// `new` is `old` after `p` moved from `from` to `to` (all but the move cache):
/// grid, castling rights, en-passant target, clocks, turn and game phase.
pub open spec fn move_applied(
    old: Board,
    new: Board,
    p: ChessPiece,
    from: (u8, u8),
    to: (u8, u8),
    promotion: Option<PieceType>,
    is_capture: bool,
) -> bool {
    let sq = squares_after(old.squares, p, from, to, promotion, is_capture);
    let rights = rights_after(rights_of(old), p, from, captured_by(old.squares, p, to, is_capture));
    &&& new.squares == sq
    &&& rights_of(new) == rights
    &&& new.en_passant_target == ep_after(p, from, to, is_capture)
    &&& new.halfmove_clock == if is_capture || p.kind == PieceType::Pawn {
        0
    } else {
        saturating_inc(old.halfmove_clock)
    }
    &&& new.turn == opposite(old.turn)
    &&& new.fullmove_number == if old.turn == PieceColor::Black {
        saturating_inc(old.fullmove_number)
    } else {
        old.fullmove_number
    }
    &&& new.game_phase == phase_of(sq, old.meta_data.move_list@.len() as int, rights.0, rights.1, rights.2, rights.3)
    &&& new.meta_data == old.meta_data
    &&& new.next_id == old.next_id
    &&& new.ply_count == old.ply_count
}

/// What a move does to the board: the origin is emptied and the mover (a
/// white pawn reaching row 0 or a black pawn reaching row 7 promoted, to the
/// piece asked for or a queen) stands on the target, marked moved; an
/// en-passant capture empties the square of the pawn taken; the other side
/// is to move; a pawn's double step leaves the square it crossed as the
/// en-passant target, any other move none; the halfmove clock restarts on a
/// pawn move or a capture and grows otherwise; the move number grows after
/// Black's move.
pub proof fn lemma_move_effects(
    old: Board,
    new: Board,
    p: ChessPiece,
    from: (u8, u8),
    to: (u8, u8),
    promotion: Option<PieceType>,
    is_capture: bool,
)
    requires
        move_applied(old, new, p, from, to, promotion, is_capture),
        from.0 < 8 && from.1 < 8 && to.0 < 8 && to.1 < 8,
        from != to,
    ensures
        new.squares[from.0 as int][from.1 as int] is None,
        new.squares[to.0 as int][to.1 as int] matches Some(q) && q.color == p.color && q.id == p.id && q.position
            == to && q.has_moved && q.kind == if p.kind == PieceType::Pawn && ((p.color == PieceColor::White
            && to.0 == 0) || (p.color == PieceColor::Black && to.0 == 7)) {
            match promotion {
                Some(k) => k,
                None => PieceType::Queen,
            }
        } else {
            p.kind
        },
        is_capture && p.kind == PieceType::Pawn && old.squares[to.0 as int][to.1 as int] is None ==> {
            let tr = if p.color == PieceColor::White {
                to.0 + 1
            } else {
                to.0 - 1
            };
            0 <= tr < 8 && tr != to.0 ==> new.squares[tr][to.1 as int] is None
        },
        new.turn != old.turn,
        new.en_passant_target == if p.kind == PieceType::Pawn && !is_capture && (to.0 == from.0 + 2 || from.0
            == to.0 + 2) {
            Some(((if to.0 > from.0 {
                from.0 + 1
            } else {
                from.0 - 1
            }) as u8, from.1))
        } else {
            None::<(u8, u8)>
        },
        p.kind == PieceType::Pawn || is_capture ==> new.halfmove_clock == 0,
        p.kind != PieceType::Pawn && !is_capture && old.halfmove_clock < u32::MAX ==> new.halfmove_clock
            == old.halfmove_clock + 1,
        old.turn == PieceColor::White ==> new.fullmove_number == old.fullmove_number,
        old.turn == PieceColor::Black && old.fullmove_number < u32::MAX ==> new.fullmove_number
            == old.fullmove_number + 1,
{
    let b = old.squares;
    let b1 = if !is_capture {
        b
    } else if takes_en_passant(b, p, to, is_capture) {
        put(b, taken_row(p, to), to.1 as int, None)
    } else {
        put(b, to.0 as int, to.1 as int, None)
    };
    if is_capture {
        if takes_en_passant(b, p, to, is_capture) {
            if 0 <= taken_row(p, to) < 8 {
                lemma_put(b, taken_row(p, to), to.1 as int, None);
            }
        } else {
            lemma_put(b, to.0 as int, to.1 as int, None);
        }
    }
    let b2 = put(b1, from.0 as int, from.1 as int, None);
    lemma_put(b1, from.0 as int, from.1 as int, None);
    let sq = squares_after(b, p, from, to, promotion, is_capture);
    lemma_put(b2, to.0 as int, to.1 as int, sq[to.0 as int][to.1 as int]);
    assert(new.turn == opposite(old.turn));
}

/// The move from `from` to `to` is a legal quiet move or a legal capture of the
/// piece on `from`, and that piece belongs to the side to move.
pub open spec fn is_legal_move(b: Board, from: (u8, u8), to: (u8, u8)) -> bool {
    match b.squares[from.0 as int][from.1 as int] {
        Some(p) => p.color == b.turn && (legal_quiet(b.squares, b.en_passant_target, p).contains(to)
            || legal_captures(b.squares, b.en_passant_target, p).contains(to)),
        None => false,
    }
}

/// A legal move leaves at most 255 points of material on the board (the game
/// phase is counted in a byte).
pub open spec fn material_fits(b: Board, from: (u8, u8), to: (u8, u8), promotion: Option<PieceType>) -> bool {
    is_legal_move(b, from, to) ==> {
        let p = b.squares[from.0 as int][from.1 as int]->0;
        let is_capture = legal_captures(b.squares, b.en_passant_target, p).contains(to);
        material_total(squares_after(b.squares, p, from, to, promotion, is_capture)) <= 255
    }
}

/// All fields but the move cache are equal.
pub open spec fn same_but_cache(a: Board, b: Board) -> bool {
    &&& a.squares == b.squares
    &&& a.turn == b.turn
    &&& rights_of(a) == rights_of(b)
    &&& a.halfmove_clock == b.halfmove_clock
    &&& a.fullmove_number == b.fullmove_number
    &&& a.en_passant_target == b.en_passant_target
    &&& a.meta_data == b.meta_data
    &&& a.next_id == b.next_id
    &&& a.game_phase == b.game_phase
    &&& a.ply_count == b.ply_count
}

/// The legal moves of a piece are among its pseudo-moves and leave its own
/// king unattacked; a quiet move goes to an empty square (a pawn's along its
/// file), a capture to a piece of the other side or, for a pawn, to the
/// en-passant target (a pawn's always to another file); and no square is
/// both a legal quiet move and a legal capture.
pub proof fn lemma_legal_moves_sound(b: Squares, ep: Option<(u8, u8)>, p: ChessPiece, to: (u8, u8))
    ensures
        legal_quiet(b, ep, p).contains(to) ==> all_moves(b, p).contains(to) && safe_pred(b, ep, p)(to),
        legal_captures(b, ep, p).contains(to) ==> all_moves(b, p).contains(to) && safe_pred(b, ep, p)(to),
        !(legal_quiet(b, ep, p).contains(to) && legal_captures(b, ep, p).contains(to)),
        legal_quiet(b, ep, p).contains(to) ==> b[to.0 as int][to.1 as int] is None && (p.kind == PieceType::Pawn
            ==> p.position.1 == to.1),
        legal_captures(b, ep, p).contains(to) ==> match b[to.0 as int][to.1 as int] {
            Some(q) => q.color != p.color,
            None => p.kind == PieceType::Pawn && ep == Some(to),
        },
        legal_captures(b, ep, p).contains(to) && p.kind == PieceType::Pawn ==> p.position.1 != to.1,
{
    let s = all_moves(b, p);
    if legal_quiet(b, ep, p).contains(to) {
        lemma_filter_member(s.filter(quiet_pred(b, p)), legal_quiet_pred(b, ep, p), to);
        lemma_filter_member(s, quiet_pred(b, p), to);
    }
    if legal_captures(b, ep, p).contains(to) {
        lemma_filter_member(s.filter(capture_pred(b, ep, p)), safe_pred(b, ep, p), to);
        lemma_filter_member(s, capture_pred(b, ep, p), to);
    }
}

/// Facts about a legal move of the piece on `from` on a consistent board: its
/// destination lies on the board, it is never a castle, a capture onto an empty
/// square is an en-passant capture by a pawn of the target, and the pawn it
/// takes stands on the mover's row.
pub proof fn lemma_legal_move_facts(b: Board, from: (u8, u8), to: (u8, u8))
    requires
        b.wf(),
        on_board(from),
        b.squares[from.0 as int][from.1 as int] is Some,
    ensures
        ({
            let p = b.squares[from.0 as int][from.1 as int]->0;
            let ep = b.en_passant_target;
            &&& p.position == from
            &&& (legal_quiet(b.squares, ep, p).contains(to) || legal_captures(
                b.squares,
                ep,
                p,
            ).contains(to)) ==> on_board(to)
            &&& legal_quiet(b.squares, ep, p).contains(to) ==> quiet_pred(b.squares, p)(to)
                && king_step_ok(p, to)
            &&& legal_captures(b.squares, ep, p).contains(to) ==> capture_target(b.squares, ep, p, to)
            &&& (legal_captures(b.squares, ep, p).contains(to) && p.kind == PieceType::Pawn
                && b.squares[to.0 as int][to.1 as int] is None) ==> (ep == Some(to) && taken_row(p, to)
                == from.0 as int)
        }),
{
    let p = b.squares[from.0 as int][from.1 as int]->0;
    let ep = b.en_passant_target;
    let s = all_moves(b.squares, p);
    lemma_all_moves_on_board(b.squares, p);
    if legal_quiet(b.squares, ep, p).contains(to) {
        lemma_filter_member(s.filter(quiet_pred(b.squares, p)), legal_quiet_pred(b.squares, ep, p), to);
        lemma_filter_member(s, quiet_pred(b.squares, p), to);
        let i = choose|i: int| 0 <= i < s.len() && s[i] == to;
        assert(on_board(s[i]));
    }
    if legal_captures(b.squares, ep, p).contains(to) {
        lemma_filter_member(s.filter(capture_pred(b.squares, ep, p)), safe_pred(b.squares, ep, p), to);
        lemma_filter_member(s, capture_pred(b.squares, ep, p), to);
        let i = choose|i: int| 0 <= i < s.len() && s[i] == to;
        assert(on_board(s[i]));
        if p.kind == PieceType::Pawn && b.squares[to.0 as int][to.1 as int] is None {
            lemma_pawn_side_moves(b.squares, p);
            assert(s[i].1 != p.position.1);
        }
    }
}

/// A move keeps the board consistent: the mover carries its new square, and
/// no id appears twice.
pub proof fn lemma_move_keeps_wf(
    b: Squares,
    p: ChessPiece,
    from: (u8, u8),
    to: (u8, u8),
    promotion: Option<PieceType>,
    is_capture: bool,
)
    requires
        positions_consistent(b),
        ids_unique(b),
        on_board(from),
        on_board(to),
        b[from.0 as int][from.1 as int] == Some(p),
        takes_en_passant(b, p, to, is_capture) ==> taken_row(p, to) == from.0 as int,
    ensures
        positions_consistent(squares_after(b, p, from, to, promotion, is_capture)),
        ids_unique(squares_after(b, p, from, to, promotion, is_capture)),
{
    let sa = squares_after(b, p, from, to, promotion, is_capture);
    let ep = takes_en_passant(b, p, to, is_capture);
    let b1 = if !is_capture {
        b
    } else if ep {
        put(b, taken_row(p, to), to.1 as int, None)
    } else {
        put(b, to.0 as int, to.1 as int, None)
    };
    if is_capture {
        if ep {
            lemma_put(b, taken_row(p, to), to.1 as int, None);
        } else {
            lemma_put(b, to.0 as int, to.1 as int, None);
        }
    }
    let b2 = put(b1, from.0 as int, from.1 as int, None);
    lemma_put(b1, from.0 as int, from.1 as int, None);
    let moved = sa[to.0 as int][to.1 as int]->0;
    lemma_put(b2, to.0 as int, to.1 as int, sa[to.0 as int][to.1 as int]);
    assert forall|r: int, c: int| 0 <= r < 8 && 0 <= c < 8 implies #[trigger] sa[r][c] == if r
        == to.0 && c == to.1 {
        Some(moved)
    } else if (r == from.0 && c == from.1) || (ep && r == taken_row(p, to) && c == to.1) {
        None
    } else {
        b[r][c]
    } by {}
    assert(moved.id == p.id && moved.position == to);
    assert forall|r1: int, c1: int, r2: int, c2: int|
        0 <= r1 < 8 && 0 <= c1 < 8 && 0 <= r2 < 8 && 0 <= c2 < 8 && (#[trigger] sa[r1][c1]) is Some
            && (#[trigger] sa[r2][c2]) is Some && sa[r1][c1]->0.id == sa[r2][c2]->0.id implies r1
        == r2 && c1 == c2 by {
        if !(r1 == to.0 && c1 == to.1) && !(r2 == to.0 && c2 == to.1) {
            assert(b[r1][c1] is Some && b[r2][c2] is Some);
        } else if r1 == to.0 && c1 == to.1 && !(r2 == to.0 && c2 == to.1) {
            assert(b[r2][c2] is Some);
            assert(b[from.0 as int][from.1 as int] is Some);
        } else if !(r1 == to.0 && c1 == to.1) && r2 == to.0 && c2 == to.1 {
            assert(b[r1][c1] is Some);
            assert(b[from.0 as int][from.1 as int] is Some);
        }
    }
}

/// Takes the captured piece off the grid, lifts the mover off `old_pos` and
/// sets it down on `new_pos`, promoted if a pawn reaches its last rank.
/// Returns the taken piece and the promotion applied.
pub fn place_move(
    squares: &mut Squares,
    moving_piece: ChessPiece,
    old_pos: (u8, u8),
    new_pos: (u8, u8),
    promotion: Option<PieceType>,
    is_capture: bool,
) -> (out: (Option<ChessPiece>, Option<PieceType>))
    requires
        on_board(old_pos),
        on_board(new_pos),
        (*old(squares))[old_pos.0 as int][old_pos.1 as int] == Some(moving_piece),
        takes_en_passant(*old(squares), moving_piece, new_pos, is_capture) ==> taken_row(
            moving_piece,
            new_pos,
        ) == old_pos.0 as int,
    ensures
        *final(squares) == squares_after(
            *old(squares),
            moving_piece,
            old_pos,
            new_pos,
            promotion,
            is_capture,
        ),
        out.0 == captured_by(*old(squares), moving_piece, new_pos, is_capture),
        out.1 == promotion_applied(moving_piece, new_pos, promotion),
{
    let ghost b0 = *squares;
    let mut captured_piece: Option<ChessPiece> = None;
    if is_capture {
        if moving_piece.kind == PieceType::Pawn
            && squares[new_pos.0 as usize][new_pos.1 as usize].is_none() {
            let captured_r: u8 = old_pos.0;
            captured_piece = squares[captured_r as usize][new_pos.1 as usize];
            squares[captured_r as usize][new_pos.1 as usize] = None;
            proof {
                lemma_put(b0, captured_r as int, new_pos.1 as int, None);
                lemma_squares_ext(*squares, put(b0, captured_r as int, new_pos.1 as int, None));
            }
        } else {
            captured_piece = squares[new_pos.0 as usize][new_pos.1 as usize];
            squares[new_pos.0 as usize][new_pos.1 as usize] = None;
            proof {
                lemma_put(b0, new_pos.0 as int, new_pos.1 as int, None);
                lemma_squares_ext(*squares, put(b0, new_pos.0 as int, new_pos.1 as int, None));
            }
        }
    }
    let ghost b1 = *squares;
    let mut moving = moving_piece;
    squares[old_pos.0 as usize][old_pos.1 as usize] = None;
    let ghost b2 = *squares;
    proof {
        lemma_put(b1, old_pos.0 as int, old_pos.1 as int, None);
        lemma_squares_ext(b2, put(b1, old_pos.0 as int, old_pos.1 as int, None));
    }
    let mut promotion_kind: Option<PieceType> = None;
    let is_pawn_promotion = moving.kind == PieceType::Pawn && ((moving.color == PieceColor::White
        && new_pos.0 == 0) || (moving.color == PieceColor::Black && new_pos.0 == 7));
    if is_pawn_promotion {
        promotion_kind = match promotion {
            Some(k) => Some(k),
            None => Some(PieceType::Queen),
        };
    }
    if let Some(prom_kind) = promotion_kind {
        moving.kind = prom_kind;
    }
    moving.position = new_pos;
    moving.has_moved = true;
    squares[new_pos.0 as usize][new_pos.1 as usize] = Some(moving);
    proof {
        lemma_put(b2, new_pos.0 as int, new_pos.1 as int, Some(moving));
        lemma_squares_ext(
            *squares,
            squares_after(b0, moving_piece, old_pos, new_pos, promotion, is_capture),
        );
    }
    (captured_piece, promotion_kind)
}

/// What `move_piece` does to a board and returns: nothing without a piece on
/// `old_pos` or for the side not to move; a refused move only refreshes the
/// move cache; a legal one is applied (`move_applied`) and returned with its
/// UCI and SAN.
pub open spec fn move_outcome(
    old: Board,
    new: Board,
    old_pos: (u8, u8),
    new_pos: (u8, u8),
    promotion: Option<PieceType>,
    res: Result<MoveStruct, MoveError>,
) -> bool {
    match old.squares[old_pos.0 as int][old_pos.1 as int] {
        None => res == Err::<MoveStruct, MoveError>(MoveError::NoAviailableMoves) && new == old,
        Some(p) => if p.color != old.turn {
            res == Err::<MoveStruct, MoveError>(MoveError::IllegalMove) && new == old
        } else {
            let ep = old.en_passant_target;
            let is_capture = legal_captures(old.squares, ep, p).contains(new_pos);
            let is_quiet = legal_quiet(old.squares, ep, p).contains(new_pos);
            &&& cache_refreshed(
                old.move_cache@,
                new.move_cache@,
                old.squares,
                ep,
                64,
            )
            &&& if !is_capture && !is_quiet {
                res == Err::<MoveStruct, MoveError>(MoveError::IllegalMove)
                    && same_but_cache(new, old)
            } else {
                &&& move_applied(old, new, p, old_pos, new_pos, promotion, is_capture)
                &&& res matches Ok(mv) && {
                    &&& mv.move_number == old.ply_count
                    &&& mv.uci@ == encode_uci(
                        new.squares,
                        old_pos,
                        new_pos,
                        promotion_applied(p, new_pos, promotion),
                    )
                    &&& mv.san@ == match san_of(
                        old.squares,
                        new.move_cache@,
                        old_pos,
                        new_pos,
                        promotion,
                        is_capture,
                    ) {
                        Ok(s) => s,
                        Err(_) => Seq::<char>::empty(),
                    }
                    &&& mv.promotion == promotion_applied(p, new_pos, promotion)
                    &&& mv.is_capture == is_capture
                    &&& mv.annotation is None
                    &&& mv.nag is None
                    &&& mv.time_stamp is None
                    &&& mv.clock is None
                }
            }
        },
    }
}

impl Board {
    /// Takes the captured piece off the board, lifts the mover off `old_pos` and
    /// sets it down on `new_pos`, promoted if a pawn reaches its last rank.
    /// Returns the taken piece and the promotion applied.
    pub(crate) fn lift_and_place(
        &mut self,
        moving_piece: ChessPiece,
        old_pos: (u8, u8),
        new_pos: (u8, u8),
        promotion: Option<PieceType>,
        is_capture: bool,
    ) -> (out: (Option<ChessPiece>, Option<PieceType>))
        requires
            on_board(old_pos),
            on_board(new_pos),
            old(self).squares[old_pos.0 as int][old_pos.1 as int] == Some(moving_piece),
            takes_en_passant(old(self).squares, moving_piece, new_pos, is_capture) ==> taken_row(
                moving_piece,
                new_pos,
            ) == old_pos.0 as int,
        ensures
            final(self).squares == squares_after(
                old(self).squares,
                moving_piece,
                old_pos,
                new_pos,
                promotion,
                is_capture,
            ),
            out.0 == captured_by(old(self).squares, moving_piece, new_pos, is_capture),
            out.1 == promotion_applied(moving_piece, new_pos, promotion),
            *final(self) == (Board { squares: final(self).squares, ..*old(self) }),
    {
        let mut squares = self.squares;
        let out = place_move(&mut squares, moving_piece, old_pos, new_pos, promotion, is_capture);
        self.squares = squares;
        out
    }

    /// Clears the castling rights that a move of `moving` from `old_pos`, taking
    /// `captured`, gives up.
    pub(crate) fn update_castling_rights(
        &mut self,
        moving: &ChessPiece,
        old_pos: (u8, u8),
        captured: &Option<ChessPiece>,
    )
        ensures
            rights_of(*final(self)) == rights_after(rights_of(*old(self)), *moving, old_pos, *captured),
            *final(self) == (Board {
                white_big_castle: final(self).white_big_castle,
                white_small_castle: final(self).white_small_castle,
                black_big_castle: final(self).black_big_castle,
                black_small_castle: final(self).black_small_castle,
                ..*old(self)
            }),
    {
        match (moving.kind, moving.color) {
            (PieceType::King, PieceColor::White) => {
                self.white_big_castle = false;
                self.white_small_castle = false;
            },
            (PieceType::King, PieceColor::Black) => {
                self.black_big_castle = false;
                self.black_small_castle = false;
            },
            (PieceType::Rook, PieceColor::White) => {
                if old_pos.0 == 7 && old_pos.1 == 0 {
                    self.white_big_castle = false;
                }
                if old_pos.0 == 7 && old_pos.1 == 7 {
                    self.white_small_castle = false;
                }
            },
            (PieceType::Rook, PieceColor::Black) => {
                if old_pos.0 == 0 && old_pos.1 == 0 {
                    self.black_big_castle = false;
                }
                if old_pos.0 == 0 && old_pos.1 == 7 {
                    self.black_small_castle = false;
                }
            },
            _ => {},
        }
        if let Some(captured) = captured {
            if captured.kind == PieceType::Rook {
                match captured.color {
                    PieceColor::White => {
                        if captured.position.0 == 7 && captured.position.1 == 0 {
                            self.white_big_castle = false;
                        } else if captured.position.0 == 7 && captured.position.1 == 7 {
                            self.white_small_castle = false;
                        }
                    },
                    PieceColor::Black => {
                        if captured.position.0 == 0 && captured.position.1 == 0 {
                            self.black_big_castle = false;
                        } else if captured.position.0 == 0 && captured.position.1 == 7 {
                            self.black_small_castle = false;
                        }
                    },
                }
            }
        }
    }

    /// Plays the move of the piece on `old_pos` to `new_pos` for the side to
    /// move, after refreshing the move cache; the move must be one of the
    /// piece's legal quiet moves or captures. A pawn reaching its last rank
    /// promotes to `promotion` or a queen. Returns the move with its SAN
    /// (computed on the board before the move, empty if that fails) and UCI.
    #[verifier::rlimit(50)]
    pub fn move_piece(
        &mut self,
        old_pos: (u8, u8),
        new_pos: (u8, u8),
        promotion: Option<PieceType>,
    ) -> (res: Result<MoveStruct, MoveError>)
        requires
            on_board(old_pos),
            old(self).wf(),
            material_fits(*old(self), old_pos, new_pos, promotion),
        ensures
            final(self).wf(),
            match old(self).squares[old_pos.0 as int][old_pos.1 as int] {
                None => res == Err::<MoveStruct, MoveError>(MoveError::NoAviailableMoves) && *final(self) == *old(self),
                Some(p) => if p.color != old(self).turn {
                    res == Err::<MoveStruct, MoveError>(MoveError::IllegalMove) && *final(self) == *old(self)
                } else {
                    let ep = old(self).en_passant_target;
                    let is_capture = legal_captures(old(self).squares, ep, p).contains(new_pos);
                    let is_quiet = legal_quiet(old(self).squares, ep, p).contains(new_pos);
                    &&& cache_refreshed(
                        old(self).move_cache@,
                        final(self).move_cache@,
                        old(self).squares,
                        ep,
                        64,
                    )
                    &&& if !is_capture && !is_quiet {
                        res == Err::<MoveStruct, MoveError>(MoveError::IllegalMove)
                            && same_but_cache(*final(self), *old(self))
                    } else {
                        &&& move_applied(*old(self), *final(self), p, old_pos, new_pos, promotion, is_capture)
                        &&& res matches Ok(mv) && {
                            &&& mv.move_number == old(self).ply_count
                            &&& mv.uci@ == encode_uci(
                                final(self).squares,
                                old_pos,
                                new_pos,
                                promotion_applied(p, new_pos, promotion),
                            )
                            &&& mv.san@ == match san_of(
                                old(self).squares,
                                final(self).move_cache@,
                                old_pos,
                                new_pos,
                                promotion,
                                is_capture,
                            ) {
                                Ok(s) => s,
                                Err(_) => Seq::<char>::empty(),
                            }
                            &&& mv.promotion == promotion_applied(p, new_pos, promotion)
                            &&& mv.is_capture == is_capture
                            &&& mv.annotation is None
                            &&& mv.nag is None
                            &&& mv.time_stamp is None
                            &&& mv.clock is None
                        }
                    }
                },
            },
    {
        let moving_piece = match self.squares[old_pos.0 as usize][old_pos.1 as usize] {
            Some(piece) => piece,
            None => {
                return Err(MoveError::NoAviailableMoves);
            },
        };
        if moving_piece.color != self.turn {
            return Err(MoveError::IllegalMove);
        }
        let ghost old_board = *self;
        let ghost ep0 = self.en_passant_target;
        let ghost b0 = self.squares;
        proof {
            lemma_legal_move_facts(old_board, old_pos, new_pos);
            lemma_last_with_id_unique(b0, old_pos.0 as int, old_pos.1 as int, 64);
            assert(flat_piece(b0, old_pos.0 * 8 + old_pos.1) == b0[old_pos.0 as int][old_pos.1 as int]);
        }
        self.rerender_move_cache();
        let (is_capture, is_quiet) = match self.move_cache.get(&moving_piece.id) {
            Some(legal) => (contains_square(&legal.capture_moves, new_pos), contains_square(
                &legal.quiet_moves,
                new_pos,
            )),
            None => (false, false),
        };
        assert(is_capture == legal_captures(b0, ep0, moving_piece).contains(new_pos));
        assert(is_quiet == legal_quiet(b0, ep0, moving_piece).contains(new_pos));
        if !is_capture && !is_quiet {
            return Err(MoveError::IllegalMove);
        }
        let san = match self.compute_san_for_move(old_pos, new_pos, promotion, is_capture) {
            Ok(s) => s,
            Err(_) => String::new(),
        };
        if is_quiet && moving_piece.kind == PieceType::King && self.is_player_castle(
            old_pos,
            new_pos,
        ) {
            // unreachable on a consistent board: a king's legal quiet moves are single steps
            assert(false);
            self.en_passant_target = None;
            self.halfmove_clock = self.halfmove_clock.saturating_add(1);
            self.execute_player_castle(old_pos, new_pos);
            let was_black = self.turn == PieceColor::Black;
            self.change_turn();
            if was_black {
                self.fullmove_number = self.fullmove_number.saturating_add(1);
            }
            let uci = self.encode_uci_move(old_pos, new_pos, promotion);
            return Ok(
                MoveStruct {
                    move_number: self.ply_count,
                    uci,
                    san,
                    promotion: None,
                    is_capture: false,
                    annotation: None,
                    nag: None,
                    time_stamp: None,
                    clock: None,
                },
            );
        }
        if is_capture && moving_piece.kind == PieceType::Pawn
            && self.squares[new_pos.0 as usize][new_pos.1 as usize].is_none() {
            // an en-passant capture needs the target still to be the en-passant square
            match self.en_passant_target {
                Some(t) => {
                    if t.0 != new_pos.0 || t.1 != new_pos.1 {
                        return Err(MoveError::IllegalMove);
                    }
                },
                None => {
                    return Err(MoveError::IllegalMove);
                },
            }
        }
        proof {
            lemma_move_keeps_wf(b0, moving_piece, old_pos, new_pos, promotion, is_capture);
        }
        let (captured_piece, promotion_kind) = self.lift_and_place(
            moving_piece,
            old_pos,
            new_pos,
            promotion,
            is_capture,
        );
        self.en_passant_target = None;
        if moving_piece.kind == PieceType::Pawn && !is_capture {
            let diff = if new_pos.0 >= old_pos.0 {
                new_pos.0 - old_pos.0
            } else {
                old_pos.0 - new_pos.0
            };
            if diff == 2 {
                let mid_r = (old_pos.0 + new_pos.0) / 2;
                self.en_passant_target = Some((mid_r, old_pos.1));
            }
        }
        self.update_castling_rights(&moving_piece, old_pos, &captured_piece);
        let is_pawn_move = moving_piece.kind == PieceType::Pawn;
        if is_capture || is_pawn_move {
            self.halfmove_clock = 0;
        } else {
            self.halfmove_clock = self.halfmove_clock.saturating_add(1);
        }
        let was_black = self.turn == PieceColor::Black;
        self.change_turn();
        if was_black {
            self.fullmove_number = self.fullmove_number.saturating_add(1);
        }
        self.update_gamephase();
        let uci = self.encode_uci_move(old_pos, new_pos, promotion_kind);
        Ok(
            MoveStruct {
                move_number: self.ply_count,
                uci,
                san,
                promotion: promotion_kind,
                is_capture,
                annotation: None,
                nag: None,
                time_stamp: None,
                clock: None,
            },
        )
    }
}

/// The result a PGN result token stands for: `1-0`, `0-1`, `1/2-1/2`, and
/// anything else an unfinished game.
pub open spec fn result_of(s: Seq<char>) -> GameResult {
    if s == "1-0"@ {
        GameResult::WhiteWin
    } else if s == "0-1"@ {
        GameResult::BlackWin
    } else if s == "1/2-1/2"@ {
        GameResult::Draw
    } else {
        GameResult::Unfinished
    }
}

/// The PGN token of a result; `*` for an unfinished game.
pub open spec fn result_token(r: GameResult) -> Seq<char> {
    match r {
        GameResult::WhiteWin => "1-0"@,
        GameResult::BlackWin => "0-1"@,
        GameResult::Draw => "1/2-1/2"@,
        GameResult::Unfinished => "*"@,
    }
}

/// A result written as its PGN token reads back as the same result.
pub proof fn lemma_result_roundtrip(r: GameResult)
    ensures
        result_of(result_token(r)) == r,
{
    reveal_strlit("1-0");
    reveal_strlit("0-1");
    reveal_strlit("1/2-1/2");
    reveal_strlit("*");
    assert("1-0"@[0] != "0-1"@[0]);
    assert("1-0"@.len() != "1/2-1/2"@.len());
    assert("0-1"@.len() != "1/2-1/2"@.len());
    assert("*"@.len() != "1-0"@.len());
    assert("*"@.len() != "1/2-1/2"@.len());
}

impl GameResult {
    /// The result a PGN result token stands for.
    pub fn from(s: &str) -> (r: GameResult)
        ensures
            r == result_of(s@),
    {
        if str_eq(s, "1-0") {
            GameResult::WhiteWin
        } else if str_eq(s, "0-1") {
            GameResult::BlackWin
        } else if str_eq(s, "1/2-1/2") {
            GameResult::Draw
        } else {
            GameResult::Unfinished
        }
    }

    /// The PGN token of the result.
    pub fn to_string(&self) -> (s: String)
        ensures
            s@ == result_token(*self),
    {
        match self {
            GameResult::WhiteWin => String::from_str("1-0"),
            GameResult::BlackWin => String::from_str("0-1"),
            GameResult::Draw => String::from_str("1/2-1/2"),
            GameResult::Unfinished => String::from_str("*"),
        }
    }
}

/// The result a PGN result token stands for.
pub fn parse_game_result(s: &str) -> (r: GameResult)
    ensures
        r == result_of(s@),
{
    GameResult::from(s)
}

/// The name of a game phase.
pub open spec fn phase_name(p: GamePhase) -> Seq<char> {
    match p {
        GamePhase::Opening => "Opening"@,
        GamePhase::MiddleGame => "MiddleGame"@,
        GamePhase::EndGame => "EndGame"@,
    }
}

impl GamePhase {
    /// The name of the phase.
    pub fn to_string(&self) -> (s: String)
        ensures
            s@ == phase_name(*self),
    {
        match self {
            GamePhase::Opening => String::from_str("Opening"),
            GamePhase::MiddleGame => String::from_str("MiddleGame"),
            GamePhase::EndGame => String::from_str("EndGame"),
        }
    }
}

/// A move record with no notation, no promotion, no capture and no
/// annotations.
pub open spec fn is_blank_move(m: MoveStruct) -> bool {
    &&& m.move_number == 0
    &&& m.san@.len() == 0
    &&& m.uci@.len() == 0
    &&& m.promotion is None
    &&& !m.is_capture
    &&& m.annotation is None
    &&& m.nag is None
    &&& m.time_stamp is None
    &&& m.clock is None
}

/// The promotion a UCI string names by its fifth character, if any.
pub open spec fn uci_promotion(uci: Seq<char>) -> Option<PieceType> {
    if uci.len() > 4 {
        crate::engine::uci::promotion_of(uci[4])
    } else {
        None
    }
}

/// The text of an optional annotation, `_` for none.
pub open spec fn or_blank(s: Option<String>) -> Seq<char> {
    match s {
        Some(t) => t@,
        None => seq!['_'],
    }
}

/// A move record as one line: `uci|san|clock|timestamp|nag|annotation`, with
/// `_` for a missing clock or annotation, 0 for a missing timestamp and -1 for
/// a missing NAG.
pub open spec fn move_line(m: MoveStruct) -> Seq<char> {
    m.uci@ + seq!['|'] + m.san@ + seq!['|'] + or_blank(m.clock) + seq!['|'] + decimal(
        match m.time_stamp {
            Some(t) => t as nat,
            None => 0,
        },
    ) + seq!['|'] + signed_decimal(
        match m.nag {
            Some(n) => n as int,
            None => -1,
        },
    ) + seq!['|'] + or_blank(m.annotation)
}

impl MoveStruct {
    /// A blank move record.
    pub fn default() -> (m: MoveStruct)
        ensures
            is_blank_move(m),
    {
        MoveStruct {
            move_number: 0,
            san: String::new(),
            uci: String::new(),
            promotion: None,
            is_capture: false,
            annotation: None,
            nag: None,
            time_stamp: None,
            clock: None,
        }
    }

    /// A move record for a UCI string: the string, and the promotion its
    /// fifth character names (in either case), if any.
    pub fn from(uci: &str) -> (m: MoveStruct)
        ensures
            m.uci@ == uci@,
            m.promotion == uci_promotion(uci@),
            m.move_number == 0,
            m.san@.len() == 0,
            !m.is_capture,
            m.annotation is None,
            m.nag is None,
            m.time_stamp is None,
            m.clock is None,
    {
        let mut mv = MoveStruct::default();
        mv.uci = String::from_str(uci);
        if uci.unicode_len() > 4 {
            mv.promotion = crate::engine::uci::promotion_of_exec(uci.get_char(4));
        }
        mv
    }

    /// The record as one line (`move_line`).
    pub fn to_string(&self) -> (s: String)
        ensures
            s@ == move_line(*self),
    {
        let mut out = String::new();
        push_str(&mut out, self.uci.as_str());
        out.push('|');
        push_str(&mut out, self.san.as_str());
        out.push('|');
        match &self.clock {
            Some(c) => push_str(&mut out, c.as_str()),
            None => out.push('_'),
        }
        out.push('|');
        let time_stamp: u64 = match self.time_stamp {
            Some(t) => t as u64,
            None => 0,
        };
        push_decimal(&mut out, time_stamp);
        out.push('|');
        let nag: i64 = match self.nag {
            Some(n) => n as i64,
            None => -1,
        };
        push_signed_decimal(&mut out, nag);
        out.push('|');
        match &self.annotation {
            Some(a) => push_str(&mut out, a.as_str()),
            None => out.push('_'),
        }
        out
    }
}

/// At most 9 points stand on each square.
pub proof fn lemma_material_bound(b: Squares, k: int)
    requires
        0 <= k,
    ensures
        0 <= material_below(b, k) <= 9 * k,
    decreases k,
{
    if k > 0 {
        lemma_material_bound(b, k - 1);
    }
}

/// The material of both sides on a grid (`material_total`).
pub fn material_sum(squares: &Squares) -> (m: u32)
    ensures
        m == material_total(*squares),
{
    let mut sum: u32 = 0;
    let mut k: usize = 0;
    while k < 64
        invariant
            k <= 64,
            sum == material_below(*squares, k as int),
        decreases 64 - k,
    {
        proof {
            lemma_material_bound(*squares, k as int + 1);
        }
        if let Some(piece) = &squares[k / 8][k % 8] {
            sum = sum + Board::material_value(&piece.kind) as u32;
        }
        k += 1;
    }
    sum
}

impl Board {
    /// Whether the move from `from` to `to` leaves at most 255 points of
    /// material on the board, as the game phase needs (`material_fits`).
    pub fn move_material_fits(&self, from: (u8, u8), to: (u8, u8), promotion: Option<PieceType>) -> (ok: bool)
        requires
            on_board(from),
            self.wf(),
        ensures
            ok == material_fits(*self, from, to, promotion),
    {
        match self.squares[from.0 as usize][from.1 as usize] {
            None => true,
            Some(p) => {
                if p.color != self.turn {
                    return true;
                }
                proof {
                    lemma_legal_move_facts(*self, from, to);
                }
                let (quiet, captures) = self.get_legal_moves(&p);
                let is_capture = contains_square(&captures, to);
                let is_quiet = contains_square(&quiet, to);
                if !is_capture && !is_quiet {
                    return true;
                }
                let mut squares = self.squares;
                place_move(&mut squares, p, from, to, promotion, is_capture);
                material_sum(&squares) <= 255
            },
        }
    }

    /// Whether the board is consistent (`wf`): every piece on the square its
    /// position names, no id twice.
    pub fn is_consistent(&self) -> (ok: bool)
        ensures
            ok == self.wf(),
    {
        let mut k: usize = 0;
        while k < 64
            invariant
                k <= 64,
                forall|m: int| 0 <= m < k && (#[trigger] self.squares[m / 8][m % 8]) is Some ==> self.squares[m
                    / 8][m % 8]->0.position == ((m / 8) as u8, (m % 8) as u8),
            decreases 64 - k,
        {
            if let Some(p) = &self.squares[k / 8][k % 8] {
                if p.position.0 as usize != k / 8 || p.position.1 as usize != k % 8 {
                    assert(!positions_consistent(self.squares));
                    return false;
                }
            }
            k += 1;
        }
        assert forall|r: int, c: int| 0 <= r < 8 && 0 <= c < 8 && (#[trigger] self.squares[r][c]) is Some implies self.squares[r][c]->0.position == (r as u8, c as u8) by {
            let m = r * 8 + c;
            assert(m / 8 == r && m % 8 == c);
            assert(self.squares[m / 8][m % 8] is Some);
        }
        let mut a: usize = 0;
        while a < 64
            invariant
                a <= 64,
                positions_consistent(self.squares),
                forall|m: int, n: int|
                    0 <= m < a && 0 <= n < 64 && m != n && (#[trigger] self.squares[m / 8][m % 8]) is Some
                        && (#[trigger] self.squares[n / 8][n % 8]) is Some ==> self.squares[m / 8][m % 8]->0.id
                        != self.squares[n / 8][n % 8]->0.id,
            decreases 64 - a,
        {
            let mut b: usize = 0;
            while b < 64
                invariant
                    a < 64,
                    b <= 64,
                    positions_consistent(self.squares),
                    forall|m: int, n: int|
                        0 <= m < a && 0 <= n < 64 && m != n && (#[trigger] self.squares[m / 8][m % 8]) is Some
                            && (#[trigger] self.squares[n / 8][n % 8]) is Some ==> self.squares[m / 8][m
                            % 8]->0.id != self.squares[n / 8][n % 8]->0.id,
                    forall|n: int|
                        0 <= n < b && a != n && (#[trigger] self.squares[n / 8][n % 8]) is Some
                            && self.squares[a as int / 8][a as int % 8] is Some ==> self.squares[a as int / 8][a as int
                            % 8]->0.id != self.squares[n / 8][n % 8]->0.id,
                decreases 64 - b,
            {
                if a != b {
                    if let (Some(x), Some(y)) = (&self.squares[a / 8][a % 8], &self.squares[b / 8][b % 8]) {
                        if x.id == y.id {
                            assert(!ids_unique(self.squares)) by {
                                assert(a as int / 8 != b as int / 8 || a as int % 8 != b as int % 8);
                            }
                            return false;
                        }
                    }
                }
                b += 1;
            }
            a += 1;
        }
        assert forall|r1: int, c1: int, r2: int, c2: int|
            0 <= r1 < 8 && 0 <= c1 < 8 && 0 <= r2 < 8 && 0 <= c2 < 8 && (#[trigger] self.squares[r1][c1]) is Some
                && (#[trigger] self.squares[r2][c2]) is Some && self.squares[r1][c1]->0.id
                == self.squares[r2][c2]->0.id implies r1 == r2 && c1 == c2 by {
            let m = r1 * 8 + c1;
            let n = r2 * 8 + c2;
            assert(m / 8 == r1 && m % 8 == c1);
            assert(n / 8 == r2 && n % 8 == c2);
            if m != n {
                assert(self.squares[m / 8][m % 8] is Some);
                assert(self.squares[n / 8][n % 8] is Some);
            }
        }
        true
    }
}

} // verus!
