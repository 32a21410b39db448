use vstd::prelude::*;

use crate::engine::board::Board;
use crate::engine::move_gen::{
    attack_squares, attack_squares_on, forward, legal_captures, legal_quiet, on_board,
    positions_on_board,
};
use crate::engine::piece::{ChessPiece, PieceColor, PieceType, Squares};

verus! {

broadcast use vstd::array::group_array_axioms;

/// The grid with one square replaced.
pub open spec fn put(b: Squares, r: int, c: int, v: Option<ChessPiece>) -> Squares {
    vstd::array::spec_array_update(b, r, vstd::array::spec_array_update(b[r], c, v))
}

/// Reading a square of a grid with one square replaced.
pub proof fn lemma_put(b: Squares, r: int, c: int, v: Option<ChessPiece>)
    requires
        0 <= r < 8,
        0 <= c < 8,
    ensures
        forall|i: int, j: int|
            0 <= i < 8 && 0 <= j < 8 ==> #[trigger] put(b, r, c, v)[i][j] == if i == r && j == c {
                v
            } else {
                b[i][j]
            },
{
}

/// Two grids that agree on every square are equal.
pub proof fn lemma_squares_ext(a: Squares, b: Squares)
    requires
        forall|i: int, j: int| 0 <= i < 8 && 0 <= j < 8 ==> #[trigger] a[i][j] == b[i][j],
    ensures
        a == b,
{
    assert forall|i: int| 0 <= i < 8 implies #[trigger] a[i] == b[i] by {
        assert(a[i] =~= b[i]);
    }
    assert(a =~= b);
}

/// A piece found by a row-major scan from flat index `k` (row `k / 8`, column
/// `k % 8`): the first king of `color`.
pub open spec fn king_square_from(b: Squares, color: PieceColor, k: int) -> Option<(u8, u8)>
    decreases 64 - k,
{
    if k >= 64 || k < 0 {
        None
    } else {
        let r = k / 8;
        let c = k % 8;
        if b[r][c] is Some && b[r][c]->0.kind == PieceType::King && b[r][c]->0.color == color {
            Some((r as u8, c as u8))
        } else {
            king_square_from(b, color, k + 1)
        }
    }
}

/// The square of the first king of `color` in row-major order.
pub open spec fn king_square(b: Squares, color: PieceColor) -> Option<(u8, u8)> {
    king_square_from(b, color, 0)
}

/// The piece on `(r, c)` belongs to the opponent of `color` and attacks `target`.
pub open spec fn attacks_from(b: Squares, color: PieceColor, r: int, c: int, target: (u8, u8)) -> bool {
    &&& b[r][c] is Some
    &&& b[r][c]->0.color != color
    &&& attack_squares(b, b[r][c]->0).contains(target)
}

/// Some piece of the opponent of `color` attacks `target`.
pub open spec fn attacked(b: Squares, color: PieceColor, target: (u8, u8)) -> bool {
    exists|r: int, c: int| 0 <= r < 8 && 0 <= c < 8 && #[trigger] attacks_from(b, color, r, c, target)
}

/// The king of `color` is attacked; a side without a king is never in check.
pub open spec fn in_check(b: Squares, color: PieceColor) -> bool {
    match king_square(b, color) {
        None => false,
        Some(k) => attacked(b, color, k),
    }
}

/// The square of the pawn taken en passant when `piece` moves to `to`: the
/// square behind `to` as seen from `piece`'s side.
pub open spec fn passed_row(piece: ChessPiece, to: (u8, u8)) -> int {
    to.0 - forward(piece.color)
}

/// Moving `piece` to `to` takes a pawn en passant: a pawn moves to another file,
/// onto an empty square that is the en-passant target.
pub open spec fn is_en_passant(
    b: Squares,
    ep: Option<(u8, u8)>,
    piece: ChessPiece,
    to: (u8, u8),
) -> bool {
    &&& piece.kind == PieceType::Pawn
    &&& piece.position.1 != to.1
    &&& b[to.0 as int][to.1 as int] is None
    &&& ep == Some(to)
}

/// The square behind an en-passant target lies on the board.
pub open spec fn simulation_defined(
    b: Squares,
    ep: Option<(u8, u8)>,
    piece: ChessPiece,
    to: (u8, u8),
) -> bool {
    is_en_passant(b, ep, piece, to) ==> 0 <= passed_row(piece, to) < 8
}

/// The grid after `piece` leaves its square and lands on `to`, with the pawn
/// behind `to` removed when the move takes en passant; nothing else changes.
pub open spec fn simulated(
    b: Squares,
    ep: Option<(u8, u8)>,
    piece: ChessPiece,
    to: (u8, u8),
) -> Squares {
    let b1 = put(b, piece.position.0 as int, piece.position.1 as int, None);
    let b2 = if is_en_passant(b, ep, piece, to) {
        put(b1, passed_row(piece, to), to.1 as int, None)
    } else {
        b1
    };
    put(b2, to.0 as int, to.1 as int, Some(ChessPiece { position: to, ..piece }))
}

/// The move of `piece` to `to` leaves its own king unattacked.
pub open spec fn safe_move(b: Squares, ep: Option<(u8, u8)>, piece: ChessPiece, to: (u8, u8)) -> bool {
    !in_check(simulated(b, ep, piece, to), piece.color)
}

/// `v` holds `x`.
pub fn contains_square(v: &Vec<(u8, u8)>, x: (u8, u8)) -> (found: bool)
    ensures
        found == v@.contains(x),
{
    let mut i: usize = 0;
    while i < v.len()
        invariant
            i <= v.len(),
            forall|j: int| 0 <= j < i ==> v@[j] != x,
        decreases v.len() - i,
    {
        if v[i].0 == x.0 && v[i].1 == x.1 {
            assert(v@[i as int] == x);
            return true;
        }
        i += 1;
    }
    false
}

/// Whether the king of `color` on the grid `squares` is attacked.
pub fn in_check_on(squares: &Squares, color: PieceColor) -> (check: bool)
    requires
        positions_on_board(*squares),
    ensures
        check == in_check(*squares, color),
{
    let mut king_pos: Option<(u8, u8)> = None;
    let mut k: usize = 0;
    while k < 64 && king_pos.is_none()
        invariant
            k <= 64,
            king_pos is None ==> king_square(*squares, color) == king_square_from(
                *squares,
                color,
                k as int,
            ),
            king_pos matches Some(kp) ==> king_square(*squares, color) == Some(kp),
        decreases 64 - k,
    {
        let r = k / 8;
        let c = k % 8;
        match squares[r][c] {
            Some(p) => {
                if p.kind == PieceType::King && p.color == color {
                    king_pos = Some((r as u8, c as u8));
                }
            },
            None => {},
        }
        k += 1;
    }
    let king_position = match king_pos {
        Some(kp) => kp,
        None => {
            return false;
        },
    };
    assert(king_square(*squares, color) == Some(king_position));
    let mut k: usize = 0;
    while k < 64
        invariant
            k <= 64,
            positions_on_board(*squares),
            king_square(*squares, color) == Some(king_position),
            forall|r: int, c: int|
                0 <= r < 8 && 0 <= c < 8 && r * 8 + c < k ==> !#[trigger] attacks_from(
                    *squares,
                    color,
                    r,
                    c,
                    king_position,
                ),
        decreases 64 - k,
    {
        let r = k / 8;
        let c = k % 8;
        match squares[r][c] {
            Some(p) => {
                if p.color != color {
                    let attacks = attack_squares_on(squares, &p);
                    if contains_square(&attacks, king_position) {
                        assert(attacks_from(*squares, color, r as int, c as int, king_position));
                        return true;
                    }
                }
            },
            None => {},
        }
        k += 1;
    }
    false
}

impl Board {
    /// Whether moving `piece` to `new_pos` leaves the king of its colour
    /// unattacked. The board is not changed: the move is played on a copy of
    /// the grid, taking the pawn behind `new_pos` when it is an en-passant
    /// capture.
    pub fn simulate_move(&self, piece: &ChessPiece, new_pos: &(u8, u8)) -> (safe: bool)
        requires
            on_board(piece.position),
            on_board(*new_pos),
            positions_on_board(self.squares),
            simulation_defined(self.squares, self.en_passant_target, *piece, *new_pos),
        ensures
            safe == safe_move(self.squares, self.en_passant_target, *piece, *new_pos),
    {
        let old_pos = piece.position;
        let mut board: Squares = self.squares;
        let is_ep = piece.kind == PieceType::Pawn && old_pos.1 != new_pos.1
            && board[new_pos.0 as usize][new_pos.1 as usize].is_none() && match self.en_passant_target {
            Some(t) => t.0 == new_pos.0 && t.1 == new_pos.1,
            None => false,
        };
        assert(is_ep == is_en_passant(self.squares, self.en_passant_target, *piece, *new_pos));
        board[old_pos.0 as usize][old_pos.1 as usize] = None;
        let ghost b1 = board;
        let mut moved_piece = *piece;
        moved_piece.position = *new_pos;
        if is_ep {
            let captured_r: usize = if piece.color == PieceColor::White {
                (new_pos.0 + 1) as usize
            } else {
                (new_pos.0 - 1) as usize
            };
            board[captured_r][new_pos.1 as usize] = None;
        }
        let ghost b2 = board;
        board[new_pos.0 as usize][new_pos.1 as usize] = Some(moved_piece);
        proof {
            let s = simulated(self.squares, self.en_passant_target, *piece, *new_pos);
            let t1 = put(self.squares, old_pos.0 as int, old_pos.1 as int, None);
            lemma_put(self.squares, old_pos.0 as int, old_pos.1 as int, None);
            lemma_squares_ext(b1, t1);
            let t2 = if is_ep {
                put(t1, passed_row(*piece, *new_pos), new_pos.1 as int, None)
            } else {
                t1
            };
            if is_ep {
                lemma_put(t1, passed_row(*piece, *new_pos), new_pos.1 as int, None);
            }
            lemma_squares_ext(b2, t2);
            lemma_put(t2, new_pos.0 as int, new_pos.1 as int, Some(moved_piece));
            lemma_squares_ext(board, s);
            assert(positions_on_board(board));
        }
        !in_check_on(&board, piece.color)
    }

    /// Whether the king of `color` is attacked on this board.
    pub fn is_in_check(&self, color: PieceColor) -> (check: bool)
        requires
            positions_on_board(self.squares),
        ensures
            check == in_check(self.squares, color),
    {
        in_check_on(&self.squares, color)
    }
}


/// The piece on `(r, c)` belongs to `color` and has a legal quiet move or a
/// legal capture.
pub open spec fn can_move_from(b: Squares, ep: Option<(u8, u8)>, color: PieceColor, r: int, c: int) -> bool {
    &&& b[r][c] is Some
    &&& b[r][c]->0.color == color
    &&& (legal_quiet(b, ep, b[r][c]->0).len() > 0 || legal_captures(b, ep, b[r][c]->0).len() > 0)
}

/// Some piece of `color` has a legal move.
pub open spec fn has_legal_move(b: Squares, ep: Option<(u8, u8)>, color: PieceColor) -> bool {
    exists|r: int, c: int| 0 <= r < 8 && 0 <= c < 8 && #[trigger] can_move_from(b, ep, color, r, c)
}

/// The side to move is in check and has no legal move.
pub open spec fn checkmate(b: Squares, ep: Option<(u8, u8)>, turn: PieceColor) -> bool {
    in_check(b, turn) && !has_legal_move(b, ep, turn)
}

/// The side to move is not in check and has no legal move.
pub open spec fn stalemate(b: Squares, ep: Option<(u8, u8)>, turn: PieceColor) -> bool {
    !in_check(b, turn) && !has_legal_move(b, ep, turn)
}

impl Board {
    /// Whether some piece of the side to move has a legal move.
    fn side_can_move(&self) -> (can: bool)
        requires
            positions_on_board(self.squares),
        ensures
            can == has_legal_move(self.squares, self.en_passant_target, self.turn),
    {
        let mut k: usize = 0;
        while k < 64
            invariant
                k <= 64,
                positions_on_board(self.squares),
                forall|r: int, c: int|
                    0 <= r < 8 && 0 <= c < 8 && r * 8 + c < k ==> !#[trigger] can_move_from(
                        self.squares,
                        self.en_passant_target,
                        self.turn,
                        r,
                        c,
                    ),
            decreases 64 - k,
        {
            let r = k / 8;
            let c = k % 8;
            match self.squares[r][c] {
                Some(piece) => {
                    if piece.color == self.turn {
                        let (q, cap) = self.get_legal_moves(&piece);
                        if q.len() > 0 || cap.len() > 0 {
                            assert(can_move_from(
                                self.squares,
                                self.en_passant_target,
                                self.turn,
                                r as int,
                                c as int,
                            ));
                            return true;
                        }
                    }
                },
                None => {},
            }
            k += 1;
        }
        false
    }

    /// The side to move is in check and no piece of it has a legal move.
    pub fn is_checkmate(&mut self) -> (mate: bool)
        requires
            positions_on_board(old(self).squares),
        ensures
            mate == checkmate(old(self).squares, old(self).en_passant_target, old(self).turn),
            *final(self) == *old(self),
    {
        if !self.is_in_check(self.turn) {
            return false;
        }
        !self.side_can_move()
    }

    /// The side to move is not in check and no piece of it has a legal move.
    pub fn is_stalemate(&mut self) -> (stale: bool)
        requires
            positions_on_board(old(self).squares),
        ensures
            stale == stalemate(old(self).squares, old(self).en_passant_target, old(self).turn),
            *final(self) == *old(self),
    {
        if self.is_in_check(self.turn) {
            return false;
        }
        !self.side_can_move()
    }

    /// The game is over for the side to move: checkmate, stalemate, or a
    /// halfmove clock of exactly 50.
    pub fn has_lost(&mut self) -> (lost: bool)
        requires
            positions_on_board(old(self).squares),
        ensures
            lost == (checkmate(old(self).squares, old(self).en_passant_target, old(self).turn)
                || stalemate(old(self).squares, old(self).en_passant_target, old(self).turn)
                || old(self).halfmove_clock == 50),
            *final(self) == *old(self),
    {
        self.is_checkmate() || self.is_stalemate() || self.halfmove_clock == 50
    }
}

/// A pawn attacks the two squares diagonally in front of it: one row up
/// the board for White (towards row 0), down for Black, and one file to
/// each side, where those squares lie on the board.
pub proof fn lemma_pawn_attacks(b: Squares, p: ChessPiece)
    requires
        p.kind == PieceType::Pawn,
        p.position.0 < 8,
        p.position.1 < 8,
    ensures
        ({
            let r = p.position.0 as int;
            let c = p.position.1 as int;
            let ar = if p.color == PieceColor::White {
                r - 1
            } else {
                r + 1
            };
            &&& 0 <= ar < 8 && c > 0 ==> attack_squares(b, p).contains((ar as u8, (c - 1) as u8))
            &&& 0 <= ar < 8 && c < 7 ==> attack_squares(b, p).contains((ar as u8, (c + 1) as u8))
            &&& forall|t: (u8, u8)|
                #[trigger] attack_squares(b, p).contains(t) ==> t.0 == ar && (t.1 == c - 1 || t.1 == c + 1)
        }),
{
    let r = p.position.0 as int;
    let c = p.position.1 as int;
    let ar = r + crate::engine::move_gen::forward(p.color);
    if 0 <= ar < 8 {
        let left = crate::engine::move_gen::jump(p, crate::engine::move_gen::forward(p.color), -1);
        let right = crate::engine::move_gen::jump(p, crate::engine::move_gen::forward(p.color), 1);
        let s = left + right;
        if c > 0 {
            assert(s[0] == (ar as u8, (c - 1) as u8));
        }
        if c < 7 {
            assert(s[left.len() as int] == (ar as u8, (c + 1) as u8));
        }
        assert forall|t: (u8, u8)| #[trigger] s.contains(t) implies t.0 == ar && (t.1 == c - 1 || t.1 == c + 1) by {
            let i = choose|i: int| 0 <= i < s.len() && s[i] == t;
            if i < left.len() {
                assert(left[i] == t);
            } else {
                assert(right[i - left.len()] == t);
            }
        }
    }
}

/// An enemy pawn standing diagonally in front of a king (as seen from the
/// pawn) gives check: for White's king a black pawn on the row above it
/// (row number one less) on a neighbouring file, for Black's king a white
/// pawn on the row below it.
pub proof fn lemma_pawn_gives_check(b: Squares, color: PieceColor, pr: int, pc: int)
    requires
        king_square(b, color) matches Some(k) && (pc + 1 == k.1 || pc == k.1 + 1),
        king_square(b, color) matches Some(k) && pr == if color == PieceColor::White {
            k.0 - 1
        } else {
            k.0 + 1
        },
        0 <= pr < 8,
        0 <= pc < 8,
        b[pr][pc] matches Some(q) && q.kind == PieceType::Pawn && q.color != color && q.position == (
            pr as u8,
            pc as u8,
        ),
    ensures
        in_check(b, color),
{
    let k = king_square(b, color)->0;
    let q = b[pr][pc]->0;
    lemma_pawn_attacks(b, q);
    assert(k.0 < 8 && k.1 < 8) by {
        lemma_king_square_on_board(b, color, 0);
    }
    assert(attacks_from(b, color, pr, pc, k));
}

/// A king found lies on the board.
proof fn lemma_king_square_on_board(b: Squares, color: PieceColor, k: int)
    ensures
        king_square_from(b, color, k) matches Some(s) ==> s.0 < 8 && s.1 < 8,
    decreases 64 - k,
{
    if 0 <= k < 64 {
        lemma_king_square_on_board(b, color, k + 1);
    }
}

/// A side with a piece that has a legal quiet move or capture is neither
/// mated nor stalemated; a mated side is in check and a stalemated one is
/// not, so no position is both; and a side in check without a legal move is
/// mated, one not in check without a legal move stalemated.
pub proof fn lemma_mate_and_stalemate(
    b: Squares,
    ep: Option<(u8, u8)>,
    turn: PieceColor,
    r: int,
    c: int,
    t: (u8, u8),
)
    ensures
        0 <= r < 8 && 0 <= c < 8 && (b[r][c] matches Some(p) && p.color == turn && (legal_quiet(b, ep, p).contains(t)
            || legal_captures(b, ep, p).contains(t))) ==> !checkmate(b, ep, turn) && !stalemate(b, ep, turn),
        checkmate(b, ep, turn) ==> in_check(b, turn),
        stalemate(b, ep, turn) ==> !in_check(b, turn),
        !(checkmate(b, ep, turn) && stalemate(b, ep, turn)),
        !has_legal_move(b, ep, turn) ==> (checkmate(b, ep, turn) || stalemate(b, ep, turn)),
{
    if 0 <= r < 8 && 0 <= c < 8 && (b[r][c] matches Some(p) && p.color == turn && (legal_quiet(b, ep, p).contains(t)
        || legal_captures(b, ep, p).contains(t))) {
        assert(can_move_from(b, ep, turn, r, c));
    }
}

} // verus!
