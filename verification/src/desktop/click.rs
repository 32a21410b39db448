use std::collections::HashMap;
use vstd::prelude::*;
use vstd::std_specs::iter::IteratorSpec;

use crate::analyzer::navigation::lemma_wf_on_board;
use crate::desktop::engine_link::GameMode;
use crate::engine::board::{
    ids_unique, relocate, saturating_inc, Board, BoardMetaData, MoveStruct, PieceMoves,
};
use crate::engine::move_gen::{cache_refreshed, on_board, positions_consistent, MoveError};
use crate::engine::piece::{opposite, ChessPiece, PieceColor, PieceType};
use crate::engine::simulate::{contains_square, in_check, lemma_put, lemma_squares_ext, put};
use crate::engine::uci::encode_uci;
use crate::engine::san_reader::{first_square, first_square_from};
use crate::engine::simulate::{checkmate, stalemate};
use crate::desktop::screens::PopupType;
use crate::engine::piece::Squares;

verus! {

broadcast use {vstd::array::group_array_axioms, vstd::std_specs::hash::group_hash_axioms};

/// Some piece's cached captures hold the square.
pub open spec fn cache_attacks(cache: Map<u32, PieceMoves>, sq: (u8, u8)) -> bool {
    exists|id: u32| #[trigger] cache.contains_key(id) && cache[id].capture_moves@.contains(sq)
}

/// The home row of the side to move: row 0 for Black, row 7 for White.
pub open spec fn home_row(turn: PieceColor) -> u8 {
    if turn == PieceColor::Black {
        0
    } else {
        7
    }
}

/// The king on `king_pos` may castle with the rook on `rook_pos`: a king and
/// a rook stand there, the king on its starting square of the side to move's
/// home row and the rook in a corner of it, the squares between them are
/// empty, no cached capture reaches the squares the king stands on or
/// crosses (c to e for the long castle, e and f for the short one), and the
/// side to move is not in check.
pub open spec fn castle_allowed(b: Board, king_pos: (u8, u8), rook_pos: (u8, u8)) -> bool {
    let row = home_row(b.turn);
    &&& b.squares[king_pos.0 as int][king_pos.1 as int] matches Some(k) && k.kind == PieceType::King
    &&& b.squares[rook_pos.0 as int][rook_pos.1 as int] matches Some(r) && r.kind == PieceType::Rook
    &&& king_pos == (row, 4u8)
    &&& (rook_pos == (row, 0u8) || rook_pos == (row, 7u8))
    &&& if rook_pos.1 == 0 {
        &&& forall|c: int| 1 <= c < 4 ==> (#[trigger] b.squares[row as int][c]) is None
        &&& forall|c: u8| 2 <= c <= 4 ==> !#[trigger] cache_attacks(b.move_cache@, (row, c))
    } else {
        &&& forall|c: int| 5 <= c < 7 ==> (#[trigger] b.squares[row as int][c]) is None
        &&& forall|c: u8| 4 <= c <= 5 ==> !#[trigger] cache_attacks(b.move_cache@, (row, c))
    }
    &&& !in_check(b.squares, b.turn)
}

/// The board after the king on row `row` castles with the rook in the
/// corner of column `rook_col`: king to the g- or c-file, rook beside it on
/// the f- or d-file, both marked moved, and that row's side loses both
/// castling rights; the move cache is not yet refreshed.
pub open spec fn castled(b: Board, row: u8, rook_col: u8) -> Board {
    let r = row as int;
    let kingside = rook_col == 7;
    let b1 = relocate(b.squares, r, 4, if kingside { 6 } else { 2 });
    let b2 = if kingside {
        relocate(b1, r, 7, 5)
    } else {
        relocate(b1, r, 0, 3)
    };
    if r == 7 {
        Board { squares: b2, white_small_castle: false, white_big_castle: false, ..b }
    } else {
        Board { squares: b2, black_small_castle: false, black_big_castle: false, ..b }
    }
}

/// `new` is `b` castled on its home row with the rook of column `rook_col`,
/// with the move cache refreshed.
pub open spec fn castle_played(b: Board, new: Board, rook_col: u8) -> bool {
    let mid = castled(b, home_row(b.turn), rook_col);
    &&& new == (Board { move_cache: new.move_cache, ..mid })
    &&& cache_refreshed(mid.move_cache@, new.move_cache@, mid.squares, mid.en_passant_target, 64)
}

/// Moving a piece along its row to an empty square keeps every piece on the
/// square its position names and the ids unique.
pub proof fn lemma_relocate_wf(b: [[Option<ChessPiece>; 8]; 8], r: int, from_c: int, to_c: int)
    requires
        positions_consistent(b),
        ids_unique(b),
        0 <= r < 8,
        0 <= from_c < 8,
        0 <= to_c < 8,
        from_c != to_c,
        b[r][to_c] is None,
    ensures
        positions_consistent(relocate(b, r, from_c, to_c)),
        ids_unique(relocate(b, r, from_c, to_c)),
        forall|i: int, j: int|
            0 <= i < 8 && 0 <= j < 8 && !(i == r && (j == from_c || j == to_c)) ==> #[trigger] relocate(
                b,
                r,
                from_c,
                to_c,
            )[i][j] == b[i][j],
        relocate(b, r, from_c, to_c)[r][from_c] is None,
{
    if let Some(p) = b[r][from_c] {
        let b1 = crate::engine::simulate::put(b, r, from_c, None);
        let q = ChessPiece { position: (r as u8, to_c as u8), has_moved: true, ..p };
        lemma_put(b, r, from_c, None);
        lemma_put(b1, r, to_c, Some(q));
        let n = relocate(b, r, from_c, to_c);
        assert forall|r1: int, c1: int, r2: int, c2: int|
            0 <= r1 < 8 && 0 <= c1 < 8 && 0 <= r2 < 8 && 0 <= c2 < 8 && (#[trigger] n[r1][c1]) is Some
                && (#[trigger] n[r2][c2]) is Some && n[r1][c1]->0.id == n[r2][c2]->0.id implies r1 == r2
            && c1 == c2 by {
            let s1 = if r1 == r && c1 == to_c { (r, from_c) } else { (r1, c1) };
            let s2 = if r2 == r && c2 == to_c { (r, from_c) } else { (r2, c2) };
            assert(b[s1.0][s1.1] is Some && b[s2.0][s2.1] is Some);
            assert(b[s1.0][s1.1]->0.id == b[s2.0][s2.1]->0.id);
        }
    }
}

/// A castle that `castle_allowed` admits keeps the board consistent.
pub proof fn lemma_castled_wf(b: Board, king_pos: (u8, u8), rook_pos: (u8, u8))
    requires
        b.wf(),
        castle_allowed(b, king_pos, rook_pos),
    ensures
        castled(b, home_row(b.turn), rook_pos.1).wf(),
{
    let r = home_row(b.turn) as int;
    if rook_pos.1 == 7 {
        assert(b.squares[r][6] is None);
        assert(b.squares[r][5] is None);
        lemma_relocate_wf(b.squares, r, 4, 6);
        let b1 = relocate(b.squares, r, 4, 6);
        assert(b1[r][5] == b.squares[r][5]);
        lemma_relocate_wf(b1, r, 7, 5);
    } else {
        assert(b.squares[r][2] is None);
        assert(b.squares[r][3] is None);
        lemma_relocate_wf(b.squares, r, 4, 2);
        let b1 = relocate(b.squares, r, 4, 2);
        assert(b1[r][3] == b.squares[r][3]);
        lemma_relocate_wf(b1, r, 0, 3);
    }
}

/// An allowed castle puts the king two files towards the rook (the g-file
/// for the h-rook, the c-file for the a-rook) and the rook on the square the
/// king crossed, empties the king's and rook's starting squares, and takes
/// both castling rights from the side that castled.
pub proof fn lemma_castle_squares(b: Board, king_pos: (u8, u8), rook_pos: (u8, u8))
    requires
        b.wf(),
        castle_allowed(b, king_pos, rook_pos),
    ensures
        ({
            let row = king_pos.0 as int;
            let n = castled(b, home_row(b.turn), rook_pos.1);
            let (kc, rc): (int, int) = if rook_pos.1 == 7 {
                (6, 5)
            } else {
                (2, 3)
            };
            &&& n.squares[row][kc] matches Some(k) && k.kind == PieceType::King && k.color == b.squares[row][4]->0.color
            &&& n.squares[row][rc] matches Some(r) && r.kind == PieceType::Rook && r.color
                == b.squares[row][rook_pos.1 as int]->0.color
            &&& n.squares[row][4] is None
            &&& n.squares[row][rook_pos.1 as int] is None
            &&& row == 7 ==> !n.white_small_castle && !n.white_big_castle
            &&& row == 0 ==> !n.black_small_castle && !n.black_big_castle
            &&& n.turn == b.turn
        }),
{
    let r = home_row(b.turn) as int;
    if rook_pos.1 == 7 {
        lemma_relocate_wf(b.squares, r, 4, 6);
        let b1 = relocate(b.squares, r, 4, 6);
        lemma_put(crate::engine::simulate::put(b.squares, r, 4, None), r, 6, b1[r][6]);
        lemma_put(b.squares, r, 4, None);
        assert(b1[r][5] == b.squares[r][5]);
        assert(b1[r][7] == b.squares[r][7]);
        lemma_relocate_wf(b1, r, 7, 5);
        let b2 = relocate(b1, r, 7, 5);
        lemma_put(b1, r, 7, None);
        lemma_put(crate::engine::simulate::put(b1, r, 7, None), r, 5, b2[r][5]);
    } else {
        lemma_relocate_wf(b.squares, r, 4, 2);
        let b1 = relocate(b.squares, r, 4, 2);
        lemma_put(crate::engine::simulate::put(b.squares, r, 4, None), r, 2, b1[r][2]);
        lemma_put(b.squares, r, 4, None);
        assert(b1[r][3] == b.squares[r][3]);
        assert(b1[r][0] == b.squares[r][0]);
        lemma_relocate_wf(b1, r, 0, 3);
        let b2 = relocate(b1, r, 0, 3);
        lemma_put(b1, r, 0, None);
        lemma_put(crate::engine::simulate::put(b1, r, 0, None), r, 3, b2[r][3]);
    }
}

/// Whether some piece's cached captures hold `sq`.
fn cache_attacks_exec(cache: &HashMap<u32, PieceMoves>, sq: (u8, u8)) -> (a: bool)
    ensures
        a == cache_attacks(cache@, sq),
{
    let ghost all = vstd::std_specs::hash::spec_hash_map_iter(cache).remaining();
    proof {
        vstd::std_specs::hash::axiom_spec_hash_map_iter(cache);
    }
    for (id, moves) in it: cache.iter()
        invariant
            it.seq() == all,
            forall|k: u32| #[trigger] cache@.contains_key(k) ==> all.contains((&k, &cache@[k])),
            forall|i: int|
                0 <= i < it.index() ==> !(#[trigger] it.seq()[i]).1.capture_moves@.contains(sq),
    {
        if contains_square(&moves.capture_moves, sq) {
            proof {
                let k = it.index() as int;
                assert(it.seq()[k] == (id, moves));
                assert(cache@.contains_key(*id) && cache@[*id] == *moves);
            }
            return true;
        }
    }
    proof {
        assert forall|id: u32| #[trigger] cache@.contains_key(id) implies !cache@[id].capture_moves@.contains(
            sq,
        ) by {
            let v = all;
            assert(v.contains((&id, &cache@[id])));
            let i = choose|i: int| 0 <= i < v.len() && v[i] == (&id, &cache@[id]);
            assert(!v[i].1.capture_moves@.contains(sq));
        }
    }
    false
}

impl Board {
    /// Whether the king on `king_pos` may castle with the rook on `rook_pos`
    /// (`castle_allowed`).
    pub fn can_castle(&self, king_pos: (u8, u8), rook_pos: (u8, u8)) -> (ok: bool)
        requires
            self.wf(),
            on_board(king_pos),
            on_board(rook_pos),
        ensures
            ok == castle_allowed(*self, king_pos, rook_pos),
    {
        let king_ok = match &self.squares[king_pos.0 as usize][king_pos.1 as usize] {
            Some(k) => k.kind == PieceType::King,
            None => false,
        };
        let rook_ok = match &self.squares[rook_pos.0 as usize][rook_pos.1 as usize] {
            Some(r) => r.kind == PieceType::Rook,
            None => false,
        };
        if !king_ok || !rook_ok {
            return false;
        }
        let row: u8 = match self.turn {
            PieceColor::Black => 0,
            PieceColor::White => 7,
        };
        if !(king_pos.0 == row && king_pos.1 == 4 && rook_pos.0 == row && (rook_pos.1 == 0
            || rook_pos.1 == 7)) {
            return false;
        }
        let (lo, hi, alo, ahi): (u8, u8, u8, u8) = if rook_pos.1 == 0 {
            (1, 4, 2, 4)
        } else {
            (5, 7, 4, 5)
        };
        let mut c: u8 = lo;
        while c < hi
            invariant
                lo <= c <= hi <= 7,
                row < 8,
                row == home_row(self.turn),
                lo == (if rook_pos.1 == 0 { 1u8 } else { 5u8 }),
                hi == (if rook_pos.1 == 0 { 4u8 } else { 7u8 }),
                forall|j: int| lo <= j < c ==> (#[trigger] self.squares[row as int][j]) is None,
            decreases hi - c,
        {
            if self.squares[row as usize][c as usize].is_some() {
                proof {
                    assert(row == home_row(self.turn));
                    if castle_allowed(*self, king_pos, rook_pos) {
                        assert(self.squares[row as int][c as int] is None);
                    }
                }
                return false;
            }
            c += 1;
        }
        let mut a: u8 = alo;
        while a <= ahi
            invariant
                alo <= a <= ahi + 1,
                ahi <= 5,
                row == home_row(self.turn),
                alo == (if rook_pos.1 == 0 { 2u8 } else { 4u8 }),
                ahi == (if rook_pos.1 == 0 { 4u8 } else { 5u8 }),
                forall|j: u8| alo <= j < a ==> !#[trigger] cache_attacks(self.move_cache@, (row, j)),
            decreases ahi + 1 - a,
        {
            if cache_attacks_exec(&self.move_cache, (row, a)) {
                proof {
                    assert(row == home_row(self.turn));
                    if castle_allowed(*self, king_pos, rook_pos) {
                        assert(!cache_attacks(self.move_cache@, (row, a)));
                    }
                }
                return false;
            }
            a += 1;
        }
        proof {
            lemma_wf_on_board(*self);
        }
        !self.is_in_check(self.turn)
    }

    /// Castles the king on `king_pos` with the rook on `rook_pos` when
    /// `can_castle` allows it, then refreshes the move cache; the turn stays.
    /// Otherwise nothing changes.
    pub fn try_castle(&mut self, king_pos: (u8, u8), rook_pos: (u8, u8)) -> (ok: bool)
        requires
            old(self).wf(),
            on_board(king_pos),
            on_board(rook_pos),
        ensures
            ok == castle_allowed(*old(self), king_pos, rook_pos),
            ok ==> castle_played(*old(self), *final(self), rook_pos.1),
            !ok ==> *final(self) == *old(self),
            final(self).wf(),
    {
        if !self.can_castle(king_pos, rook_pos) {
            return false;
        }
        proof {
            lemma_castled_wf(*self, king_pos, rook_pos);
            lemma_wf_on_board(castled(*self, home_row(self.turn), rook_pos.1));
        }
        let to: (u8, u8) = (king_pos.0, if rook_pos.1 == 7 { 6 } else { 2 });
        self.execute_player_castle(king_pos, to);
        self.rerender_move_cache();
        true
    }
}

/// What a click on the board led to, for the caller to follow up (such as
/// asking for an evaluation after a move).
#[derive(Clone, Copy, Debug, PartialEq, Eq, Structural)]
pub enum ClickAction {
    Idle,
    Moved,
    Castled,
}

/// Clicks act on the board: always in the sandbox, in a game against the
/// engine only while it runs and the player is to move, never otherwise.
pub open spec fn click_active(mode: GameMode, game_over: bool, player: PieceColor, turn: PieceColor) -> bool {
    match mode {
        GameMode::PvE => !game_over && player == turn,
        GameMode::Sandbox => true,
        GameMode::PvP => false,
    }
}

/// Picking a piece selects it when it belongs to the side to move, else
/// clears the selection.
pub open spec fn pick(q: ChessPiece, turn: PieceColor) -> Option<ChessPiece> {
    if q.color == turn {
        Some(q)
    } else {
        None
    }
}

/// The quiet moves and captures cached for the piece `id`; none when it has
/// no entry.
pub open spec fn cached_moves(cache: Map<u32, PieceMoves>, id: u32) -> (Seq<(u8, u8)>, Seq<(u8, u8)>) {
    if cache.contains_key(id) {
        (cache[id].quiet_moves@, cache[id].capture_moves@)
    } else {
        (Seq::empty(), Seq::empty())
    }
}

/// The desktop board's move from `from` to `to`, as its cached moves allow,
/// giving the board `new`, the pending promotion square `new_pend` and the
/// result `res`. An empty origin is refused, and so is a destination that is
/// neither a cached quiet move nor a cached capture of the piece there (of
/// either side). Otherwise the piece moves and is marked moved; a pawn that
/// captures onto an empty square removes the piece on the en-passant target;
/// a pawn's quiet double step makes its destination the en-passant target
/// (which is otherwise kept); a pawn reaching its last rank leaves a
/// promotion pending there; the halfmove clock restarts on a capture or pawn
/// move, the turn passes and the fullmove number grows after Black. The move
/// is returned with its UCI, no SAN and no promotion.
pub open spec fn desktop_move_outcome(
    b: Board,
    pend: Option<(u8, u8)>,
    new: Board,
    new_pend: Option<(u8, u8)>,
    from: (u8, u8),
    to: (u8, u8),
    res: Result<MoveStruct, MoveError>,
) -> bool {
    match b.squares[from.0 as int][from.1 as int] {
        None => res == Err::<MoveStruct, MoveError>(MoveError::NoAviailableMoves) && new == b && new_pend
            == pend,
        Some(p) => {
            let (quiet, caps) = cached_moves(b.move_cache@, p.id);
            let is_capture = caps.contains(to);
            let is_quiet = quiet.contains(to);
            if !is_capture && !is_quiet {
                res == Err::<MoveStruct, MoveError>(MoveError::IllegalMove) && new == b && new_pend == pend
            } else {
                let is_pawn = p.kind == PieceType::Pawn;
                let s1 = put(b.squares, from.0 as int, from.1 as int, None);
                let ep_take = is_pawn && is_capture && s1[to.0 as int][to.1 as int] is None
                    && b.en_passant_target is Some;
                let s2 = if ep_take {
                    let t = b.en_passant_target->0;
                    put(s1, t.0 as int, t.1 as int, None)
                } else {
                    s1
                };
                let s3 = put(
                    s2,
                    to.0 as int,
                    to.1 as int,
                    Some(ChessPiece { position: to, has_moved: true, ..p }),
                );
                let double = if to.0 > from.0 {
                    to.0 - from.0 > 1
                } else {
                    from.0 - to.0 > 1
                };
                let last_row: u8 = if p.color == PieceColor::White {
                    0
                } else {
                    7
                };
                &&& new == (Board {
                    squares: s3,
                    en_passant_target: if is_pawn && !is_capture && double {
                        Some(to)
                    } else {
                        b.en_passant_target
                    },
                    halfmove_clock: if is_capture || is_pawn {
                        0
                    } else {
                        saturating_inc(b.halfmove_clock)
                    },
                    turn: opposite(b.turn),
                    fullmove_number: if b.turn == PieceColor::Black {
                        saturating_inc(b.fullmove_number)
                    } else {
                        b.fullmove_number
                    },
                    ..b
                })
                &&& new_pend == if is_pawn && to.0 == last_row {
                    Some(to)
                } else {
                    pend
                }
                &&& res matches Ok(mv) && {
                    &&& mv.move_number == b.ply_count
                    &&& mv.uci@ == encode_uci(new.squares, from, to, None)
                    &&& mv.san@.len() == 0
                    &&& mv.promotion is None
                    &&& mv.is_capture == is_capture
                    &&& mv.annotation is None
                    &&& mv.nag is None
                    &&& mv.time_stamp is None
                    &&& mv.clock is None
                }
            }
        },
    }
}

/// Moving a piece to a square of the board (clearing its origin, and maybe
/// one more square) keeps the board consistent.
proof fn lemma_desktop_move_wf(b: Board, from: (u8, u8), to: (u8, u8), clear: Option<(u8, u8)>, p: ChessPiece)
    requires
        b.wf(),
        on_board(from),
        on_board(to),
        clear matches Some(t) ==> on_board(t),
        b.squares[from.0 as int][from.1 as int] == Some(p),
    ensures
        ({
            let s1 = put(b.squares, from.0 as int, from.1 as int, None);
            let s2 = match clear {
                Some(t) => put(s1, t.0 as int, t.1 as int, None),
                None => s1,
            };
            let s3 = put(s2, to.0 as int, to.1 as int, Some(ChessPiece { position: to, has_moved: true, ..p }));
            positions_consistent(s3) && ids_unique(s3)
        }),
{
    let s1 = put(b.squares, from.0 as int, from.1 as int, None);
    lemma_put(b.squares, from.0 as int, from.1 as int, None);
    let s2 = match clear {
        Some(t) => put(s1, t.0 as int, t.1 as int, None),
        None => s1,
    };
    if let Some(t) = clear {
        lemma_put(s1, t.0 as int, t.1 as int, None);
    }
    let q = ChessPiece { position: to, has_moved: true, ..p };
    let s3 = put(s2, to.0 as int, to.1 as int, Some(q));
    lemma_put(s2, to.0 as int, to.1 as int, Some(q));
    assert forall|r: int, c: int|
        0 <= r < 8 && 0 <= c < 8 && (#[trigger] s3[r][c]) is Some implies s3[r][c]->0.position == (
        r as u8,
        c as u8,
    ) by {
        if !(r == to.0 && c == to.1) {
            assert(s3[r][c] == s2[r][c]);
            assert(s2[r][c] is Some ==> s2[r][c] == b.squares[r][c]);
        }
    }
    assert forall|r1: int, c1: int, r2: int, c2: int|
        0 <= r1 < 8 && 0 <= c1 < 8 && 0 <= r2 < 8 && 0 <= c2 < 8 && (#[trigger] s3[r1][c1]) is Some
            && (#[trigger] s3[r2][c2]) is Some && s3[r1][c1]->0.id == s3[r2][c2]->0.id implies r1 == r2
        && c1 == c2 by {
        let a1 = if r1 == to.0 && c1 == to.1 { (from.0 as int, from.1 as int) } else { (r1, c1) };
        let a2 = if r2 == to.0 && c2 == to.1 { (from.0 as int, from.1 as int) } else { (r2, c2) };
        assert(b.squares[a1.0][a1.1] is Some && b.squares[a2.0][a2.1] is Some);
        assert(b.squares[a1.0][a1.1]->0.id == b.squares[a2.0][a2.1]->0.id);
    }
}

/// Plays a move on the desktop board as its cached moves allow
/// (`desktop_move_outcome`). The stored move cache is used as it is; the
/// caller refreshes it after a move, as the desktop does for a board it
/// marks modified.
pub fn desktop_move(
    board: &mut Board,
    promotion_pending: &mut Option<(u8, u8)>,
    from: (u8, u8),
    to: (u8, u8),
) -> (res: Result<MoveStruct, MoveError>)
    requires
        old(board).wf(),
        on_board(from),
        on_board(to),
        old(board).en_passant_target matches Some(t) ==> on_board(t),
    ensures
        desktop_move_outcome(*old(board), *old(promotion_pending), *final(board), *final(promotion_pending), from, to, res),
        final(board).wf(),
        final(board).en_passant_target matches Some(t) ==> on_board(t),
{
    let p = match board.squares[from.0 as usize][from.1 as usize] {
        Some(piece) => piece,
        None => {
            return Err(MoveError::NoAviailableMoves);
        },
    };
    let (is_quiet, is_capture) = match board.move_cache.get(&p.id) {
        Some(m) => (contains_square(&m.quiet_moves, to), contains_square(&m.capture_moves, to)),
        None => (false, false),
    };
    if !is_quiet && !is_capture {
        return Err(MoveError::IllegalMove);
    }
    let ghost b0 = *board;
    let is_pawn = p.kind == PieceType::Pawn;
    board.squares[from.0 as usize][from.1 as usize] = None;
    let ghost clear: Option<(u8, u8)> = None;
    if is_pawn {
        if is_capture {
            if board.squares[to.0 as usize][to.1 as usize].is_none() {
                if let Some(t) = board.en_passant_target {
                    board.squares[t.0 as usize][t.1 as usize] = None;
                    proof {
                        clear = Some(t);
                    }
                }
            }
        } else {
            let double = if to.0 > from.0 {
                to.0 - from.0 > 1
            } else {
                from.0 - to.0 > 1
            };
            if double {
                board.en_passant_target = Some(to);
            }
        }
        let last_row: u8 = match p.color {
            PieceColor::White => 0,
            PieceColor::Black => 7,
        };
        if to.0 == last_row {
            *promotion_pending = Some(to);
        }
    }
    let mut moved = p;
    moved.position = to;
    moved.has_moved = true;
    board.squares[to.0 as usize][to.1 as usize] = Some(moved);
    proof {
        lemma_desktop_move_wf(b0, from, to, clear, p);
        let s1 = put(b0.squares, from.0 as int, from.1 as int, None);
        let s2 = match clear {
            Some(t) => put(s1, t.0 as int, t.1 as int, None),
            None => s1,
        };
        lemma_put(b0.squares, from.0 as int, from.1 as int, None);
        if let Some(t) = clear {
            lemma_put(s1, t.0 as int, t.1 as int, None);
        }
        lemma_put(s2, to.0 as int, to.1 as int, Some(moved));
        lemma_squares_ext(board.squares, put(s2, to.0 as int, to.1 as int, Some(moved)));
    }
    if is_capture || is_pawn {
        board.halfmove_clock = 0;
    } else {
        board.halfmove_clock = board.halfmove_clock.saturating_add(1);
    }
    let was_black = board.turn == PieceColor::Black;
    board.change_turn();
    if was_black {
        board.fullmove_number = board.fullmove_number.saturating_add(1);
    }
    let uci = board.encode_uci_move(from, to, None);
    Ok(
        MoveStruct {
            move_number: board.ply_count,
            san: String::new(),
            uci,
            promotion: None,
            is_capture,
            annotation: None,
            nag: None,
            time_stamp: None,
            clock: None,
        },
    )
}

/// `new` is the board `b1` with the move of `res` appended to its move list
/// when there is one.
pub open spec fn move_recorded(b1: Board, new: Board, res: Result<MoveStruct, MoveError>) -> bool {
    &&& new == (Board { meta_data: new.meta_data, ..b1 })
    &&& new.meta_data == (BoardMetaData { move_list: new.meta_data.move_list, ..b1.meta_data })
    &&& new.meta_data.move_list@ == match res {
        Ok(mv) => b1.meta_data.move_list@.push(mv),
        Err(_) => b1.meta_data.move_list@,
    }
}

/// `new` is `b` after the desktop move from `from` to `square`, with the
/// move recorded; a move played clears the selection, and the action says
/// whether one was played.
pub open spec fn click_moved(
    b: Board,
    new: Board,
    pend: Option<(u8, u8)>,
    new_pend: Option<(u8, u8)>,
    sel: Option<ChessPiece>,
    new_sel: Option<ChessPiece>,
    from: (u8, u8),
    square: (u8, u8),
    act: ClickAction,
) -> bool {
    exists|b1: Board, res: Result<MoveStruct, MoveError>|
        #[trigger] desktop_move_outcome(b, pend, b1, new_pend, from, square, res) && move_recorded(b1, new, res)
            && act == (if res is Ok {
            ClickAction::Moved
        } else {
            ClickAction::Idle
        }) && new_sel == (if res is Ok {
            None
        } else {
            sel
        })
}

/// What a click on `square` does, from the board `b`, selection `sel` and
/// pending promotion `pend` to `new`, `new_sel` and `new_pend`. When clicks
/// are not active nothing changes. A secondary click clears the selection
/// first. Then a primary click, unless a promotion is pending in a game
/// against the engine:
/// - with nothing selected, picks the piece on the square if there is one;
/// - with a piece selected and a piece of the same colour clicked: a king
///   with a rook of its own castles when `castle_allowed` (in a game against
///   the engine the selection is then cleared and the turn passes), and
///   otherwise the clicked piece is picked;
/// - with a piece selected and an empty square or a piece of the other
///   colour clicked, the piece on the selected square moves there as the
///   desktop board's cached moves allow (`desktop_move_outcome`), the move is
///   recorded and the selection cleared.
pub open spec fn click_outcome(
    b: Board,
    new: Board,
    sel: Option<ChessPiece>,
    new_sel: Option<ChessPiece>,
    pend: Option<(u8, u8)>,
    new_pend: Option<(u8, u8)>,
    mode: GameMode,
    game_over: bool,
    player: PieceColor,
    square: (u8, u8),
    clicked: bool,
    secondary_clicked: bool,
    act: ClickAction,
) -> bool {
    if !click_active(mode, game_over, player, b.turn) {
        new == b && new_sel == sel && new_pend == pend && act == ClickAction::Idle
    } else {
        let sel0 = if secondary_clicked {
            None
        } else {
            sel
        };
        if !clicked || (mode == GameMode::PvE && pend is Some) {
            new == b && new_sel == sel0 && new_pend == pend && act == ClickAction::Idle
        } else {
            match (sel0, b.squares[square.0 as int][square.1 as int]) {
                (None, None) => new == b && new_sel == sel0 && new_pend == pend && act == ClickAction::Idle,
                (None, Some(q)) => new == b && new_sel == pick(q, b.turn) && new_pend == pend && act
                    == ClickAction::Idle,
                (Some(p), Some(q)) => if p.color == q.color {
                    &&& new_pend == pend
                    &&& if q.kind == PieceType::Rook && p.kind == PieceType::King && castle_allowed(
                        b,
                        p.position,
                        q.position,
                    ) {
                        &&& act == ClickAction::Castled
                        &&& if mode == GameMode::PvE {
                            &&& castle_played(b, Board { turn: b.turn, ..new }, q.position.1)
                            &&& new.turn == opposite(b.turn)
                            &&& new_sel is None
                        } else {
                            castle_played(b, new, q.position.1) && new_sel == sel0
                        }
                    } else {
                        new == b && new_sel == pick(q, b.turn) && act == ClickAction::Idle
                    }
                } else {
                    click_moved(b, new, pend, new_pend, sel0, new_sel, p.position, square, act)
                },
                (Some(p), None) => click_moved(b, new, pend, new_pend, sel0, new_sel, p.position, square, act),
            }
        }
    }
}

/// Plays the desktop move of a click, records it and clears the selection
/// when it is played.
fn click_move(
    board: &mut Board,
    selected: &mut Option<ChessPiece>,
    promotion_pending: &mut Option<(u8, u8)>,
    from: (u8, u8),
    square: (u8, u8),
) -> (act: ClickAction)
    requires
        old(board).wf(),
        on_board(from),
        on_board(square),
        old(board).en_passant_target matches Some(t) ==> on_board(t),
    ensures
        click_moved(
            *old(board),
            *final(board),
            *old(promotion_pending),
            *final(promotion_pending),
            *old(selected),
            *final(selected),
            from,
            square,
            act,
        ),
        final(board).wf(),
        final(board).en_passant_target matches Some(t) ==> on_board(t),
{
    let ghost b0 = *board;
    let ghost p0 = *promotion_pending;
    let res = desktop_move(board, promotion_pending, from, square);
    let ghost b1 = *board;
    let ghost r = res;
    proof {
        assert(desktop_move_outcome(b0, p0, b1, *promotion_pending, from, square, r));
    }
    match res {
        Ok(ms) => {
            board.meta_data.move_list.push(ms);
            *selected = None;
            proof {
                assert(move_recorded(b1, *board, r));
            }
            ClickAction::Moved
        },
        Err(_) => {
            proof {
                assert(move_recorded(b1, *board, r));
            }
            ClickAction::Idle
        },
    }
}

/// The decision step of a click on the board (`click_outcome`): the board
/// and the selection change as the click asks, and the result tells the
/// caller whether a move or a castle was played. A primary and a secondary
/// click in the same event act in that order: first the selection is
/// cleared, then the primary click acts.
pub fn board_click(
    board: &mut Board,
    selected: &mut Option<ChessPiece>,
    promotion_pending: &mut Option<(u8, u8)>,
    mode: GameMode,
    game_over: bool,
    player: PieceColor,
    square: (u8, u8),
    clicked: bool,
    secondary_clicked: bool,
) -> (act: ClickAction)
    requires
        old(board).wf(),
        on_board(square),
        old(board).en_passant_target matches Some(t) ==> on_board(t),
        (*old(selected)) is Some ==> on_board((*old(selected))->0.position),
    ensures
        click_outcome(
            *old(board),
            *final(board),
            *old(selected),
            *final(selected),
            *old(promotion_pending),
            *final(promotion_pending),
            mode,
            game_over,
            player,
            square,
            clicked,
            secondary_clicked,
            act,
        ),
        final(board).wf(),
{
    let active = match mode {
        GameMode::PvE => !game_over && player == board.turn,
        GameMode::Sandbox => true,
        GameMode::PvP => false,
    };
    if !active {
        return ClickAction::Idle;
    }
    if secondary_clicked {
        *selected = None;
    }
    if !clicked {
        return ClickAction::Idle;
    }
    if mode == GameMode::PvE && promotion_pending.is_some() {
        return ClickAction::Idle;
    }
    let old_piece = *selected;
    let new_piece = board.squares[square.0 as usize][square.1 as usize];
    match old_piece {
        None => {
            if let Some(q) = new_piece {
                if q.color == board.turn {
                    *selected = Some(q);
                }
            }
            ClickAction::Idle
        },
        Some(p) => {
            match new_piece {
                Some(q) => {
                    if q.color == p.color {
                        if q.kind == PieceType::Rook && p.kind == PieceType::King {
                            proof {
                                assert(q.position == square);
                            }
                            if board.try_castle(p.position, q.position) {
                                if mode == GameMode::PvE {
                                    *selected = None;
                                    board.change_turn();
                                }
                                return ClickAction::Castled;
                            }
                        }
                        *selected = if q.color == board.turn {
                            Some(q)
                        } else {
                            None
                        };
                        ClickAction::Idle
                    } else {
                        click_move(board, selected, promotion_pending, p.position, square)
                    }
                },
                None => click_move(board, selected, promotion_pending, p.position, square),
            }
        },
    }
}

/// The squares holding the king of `color`.
pub open spec fn king_of(b: Squares, color: PieceColor) -> spec_fn(int, int) -> bool {
    |i: int, j: int| b[i][j] matches Some(p) && p.kind == PieceType::King && p.color == color
}

/// The first square in reading order holding the king of `color`.
fn find_king(b: &Squares, color: PieceColor) -> (sq: Option<(u8, u8)>)
    ensures
        sq == first_square(king_of(*b, color)),
{
    let ghost pred = king_of(*b, color);
    let mut n: usize = 0;
    while n < 64
        invariant
            n <= 64,
            pred == king_of(*b, color),
            first_square(pred) == first_square_from(pred, n as int),
        decreases 64 - n,
    {
        let (i, j) = (n / 8, n % 8);
        if let Some(p) = b[i][j] {
            if p.kind == PieceType::King && p.color == color {
                assert(pred(n as int / 8, n as int % 8));
                return Some((i as u8, j as u8));
            }
        }
        assert(!pred(n as int / 8, n as int % 8));
        n += 1;
    }
    None
}

/// After a click in a game against the engine that is not over: when the
/// side to move has lost (mate, stalemate, or 50 on the halfmove clock) the
/// game is over, the lost-game popup shows and the square of that side's
/// king (the first in reading order) is marked. Otherwise, or when the game
/// was already over, nothing changes.
pub fn end_if_lost(
    board: &mut Board,
    game_over: &mut bool,
    popup: &mut Option<PopupType>,
    checkmate_square: &mut Option<(u8, u8)>,
) -> (lost: bool)
    requires
        old(board).wf(),
    ensures
        *final(board) == *old(board),
        lost == (!*old(game_over) && (checkmate(old(board).squares, old(board).en_passant_target, old(board).turn)
            || stalemate(old(board).squares, old(board).en_passant_target, old(board).turn)
            || old(board).halfmove_clock == 50)),
        lost ==> *final(game_over) && (*final(popup) matches Some(PopupType::GameLostPopup(t)) && t@ == "ai perdut"@)
            && *final(checkmate_square) == first_square(king_of(old(board).squares, old(board).turn)),
        !lost ==> *final(game_over) == *old(game_over) && *final(checkmate_square) == *old(checkmate_square)
            && *final(popup) == *old(popup),
{
    if *game_over {
        return false;
    }
    proof {
        lemma_wf_on_board(*board);
    }
    if board.has_lost() {
        *game_over = true;
        *popup = Some(PopupType::GameLostPopup(String::from_str("ai perdut")));
        proof {
            reveal_strlit("ai perdut");
        }
        *checkmate_square = find_king(&board.squares, board.turn);
        true
    } else {
        false
    }
}

} // verus!
